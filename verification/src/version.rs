//! Composer versions: parsing, rendering and ordering.
use vstd::prelude::*;
use crate::text::{
    chars_eq, chars_to_string, digit_value, digits_end, digits_num, is_digit, is_digit_exec, is_letter,
    digit_char, is_letter_exec, lower_char, lower_seq, lower_vec, nat_chars, push_str, push_u32, str_chars, sub_vec,
};

verus! {

/// Why a version string was refused.
#[derive(Debug, Clone, PartialEq, Eq)]
pub enum VersionError {
    Invalid(String),
}

impl VersionError {
    /// The error as text: `invalid version string: <input>`.
    pub fn message(&self) -> (r: String)
        ensures
            r@ == "invalid version string: "@ + match self {
                VersionError::Invalid(m) => m@,
            },
    {
        proof {
            reveal_strlit("invalid version string: ");
        }
        let mut out: Vec<char> = Vec::new();
        crate::text::push_str(&mut out, "invalid version string: ");
        match self {
            VersionError::Invalid(m) => crate::text::push_str(&mut out, m.as_str()),
        }
        crate::text::chars_to_string(out.as_slice())
    }
}

/// Composer's stability levels, from least to most stable.
#[derive(Debug, Clone, Copy, PartialEq, Eq, Hash, PartialOrd, Ord, Structural)]
pub enum Stability {
    Dev,
    Alpha,
    Beta,
    Rc,
    Stable,
}

/// Position of a stability level in `dev < alpha < beta < RC < stable`.
pub open spec fn stability_rank(s: Stability) -> nat {
    match s {
        Stability::Dev => 0,
        Stability::Alpha => 1,
        Stability::Beta => 2,
        Stability::Rc => 3,
        Stability::Stable => 4,
    }
}

pub fn stability_rank_exec(s: Stability) -> (r: u8)
    ensures
        r as nat == stability_rank(s),
{
    match s {
        Stability::Dev => 0,
        Stability::Alpha => 1,
        Stability::Beta => 2,
        Stability::Rc => 3,
        Stability::Stable => 4,
    }
}

/// The stability that a version suffix names, compared case-insensitively.
pub open spec fn suffix_stability(s: Seq<char>) -> Option<Stability> {
    let l = lower_seq(s);
    if l == seq!['d', 'e', 'v'] {
        Some(Stability::Dev)
    } else if l == seq!['a'] || l == seq!['a', 'l', 'p', 'h', 'a'] {
        Some(Stability::Alpha)
    } else if l == seq!['b'] || l == seq!['b', 'e', 't', 'a'] {
        Some(Stability::Beta)
    } else if l == seq!['r', 'c'] || l == seq!['p'] {
        Some(Stability::Rc)
    } else if l == seq!['p', 'l'] || l == seq!['p', 'a', 't', 'c', 'h'] {
        Some(Stability::Stable)
    } else {
        None
    }
}

/// The name under which a stability level is written.
pub open spec fn stability_name(s: Stability) -> Seq<char> {
    match s {
        Stability::Dev => seq!['d', 'e', 'v'],
        Stability::Alpha => seq!['a', 'l', 'p', 'h', 'a'],
        Stability::Beta => seq!['b', 'e', 't', 'a'],
        Stability::Rc => seq!['R', 'C'],
        Stability::Stable => seq!['s', 't', 'a', 'b', 'l', 'e'],
    }
}

fn literal_eq(v: &Vec<char>, lit: &str) -> (r: bool)
    ensures
        r == (v@ == lit@),
{
    let w = str_chars(lit);
    chars_eq(v, &w)
}

fn suffix_stability_chars(s: &Vec<char>) -> (r: Option<Stability>)
    ensures
        r == suffix_stability(s@),
{
    let l = lower_vec(s);
    proof {
        reveal_strlit("dev");
        reveal_strlit("a");
        reveal_strlit("alpha");
        reveal_strlit("b");
        reveal_strlit("beta");
        reveal_strlit("rc");
        reveal_strlit("p");
        reveal_strlit("pl");
        reveal_strlit("patch");
    }
    assert("dev"@ =~= seq!['d', 'e', 'v']);
    assert("a"@ =~= seq!['a']);
    assert("alpha"@ =~= seq!['a', 'l', 'p', 'h', 'a']);
    assert("b"@ =~= seq!['b']);
    assert("beta"@ =~= seq!['b', 'e', 't', 'a']);
    assert("rc"@ =~= seq!['r', 'c']);
    assert("p"@ =~= seq!['p']);
    assert("pl"@ =~= seq!['p', 'l']);
    assert("patch"@ =~= seq!['p', 'a', 't', 'c', 'h']);
    if literal_eq(&l, "dev") {
        Some(Stability::Dev)
    } else if literal_eq(&l, "a") || literal_eq(&l, "alpha") {
        Some(Stability::Alpha)
    } else if literal_eq(&l, "b") || literal_eq(&l, "beta") {
        Some(Stability::Beta)
    } else if literal_eq(&l, "rc") || literal_eq(&l, "p") {
        Some(Stability::Rc)
    } else if literal_eq(&l, "pl") || literal_eq(&l, "patch") {
        Some(Stability::Stable)
    } else {
        None
    }
}

impl Stability {
    /// Reads a version suffix such as `beta`, `RC` or `pl` (any letter case).
    pub fn from_suffix(s: &str) -> (r: Option<Self>)
        ensures
            r == suffix_stability(s@),
    {
        let v = str_chars(s);
        suffix_stability_chars(&v)
    }

    /// The name under which this stability level is written.
    pub fn as_str(self) -> (r: &'static str)
        ensures
            r@ == stability_name(self),
    {
        proof {
            reveal_strlit("dev");
            reveal_strlit("alpha");
            reveal_strlit("beta");
            reveal_strlit("RC");
            reveal_strlit("stable");
        }
        match self {
            Self::Dev => "dev",
            Self::Alpha => "alpha",
            Self::Beta => "beta",
            Self::Rc => "RC",
            Self::Stable => "stable",
        }
    }
}

/// A Composer version: up to four numbers, a stability level with an optional
/// number, or a `dev-<branch>` name.
#[derive(Debug, Clone, PartialEq, Eq, Hash)]
pub struct Version {
    pub major: u32,
    pub minor: u32,
    pub patch: u32,
    /// Optional 4th numeric component.
    pub tweak: Option<u32>,
    pub stability: Stability,
    /// Number after the stability suffix (`1.2.3-beta.2` has 2).
    pub stability_n: Option<u32>,
    /// `dev-<branch>` form: the branch name.
    pub dev_branch: Option<String>,
    /// The input carried a `v` prefix (never written back).
    pub is_v_prefixed: bool,
}

/// The mathematical content of a `Version`.
pub struct VersionView {
    pub major: u32,
    pub minor: u32,
    pub patch: u32,
    pub tweak: Option<u32>,
    pub stability: Stability,
    pub stability_n: Option<u32>,
    pub dev_branch: Option<Seq<char>>,
    pub is_v_prefixed: bool,
}

pub open spec fn opt_string_view(o: Option<String>) -> Option<Seq<char>> {
    match o {
        Some(s) => Some(s@),
        None => None,
    }
}

impl View for Version {
    type V = VersionView;

    open spec fn view(&self) -> VersionView {
        VersionView {
            major: self.major,
            minor: self.minor,
            patch: self.patch,
            tweak: self.tweak,
            stability: self.stability,
            stability_n: self.stability_n,
            dev_branch: opt_string_view(self.dev_branch),
            is_v_prefixed: self.is_v_prefixed,
        }
    }
}

/// Result of reading a number at some position: its value and where it ends.
pub open spec fn parse_number(s: Seq<char>, i: int) -> Option<(u32, int)> {
    let e = digits_end(s, i);
    if e == i || digits_num(s, i, e) > u32::MAX {
        None
    } else {
        Some((digits_num(s, i, e) as u32, e))
    }
}

/// Reads the dot-separated numbers of a version from position `i`
/// (at most four), appending them to `acc`; also gives where they end.
pub open spec fn parse_components(s: Seq<char>, i: int, acc: Seq<u32>) -> Option<(Seq<u32>, int)>
    decreases 4 - acc.len(),
{
    if acc.len() >= 4 {
        None
    } else {
        match parse_number(s, i) {
            None => None,
            Some((n, e)) => {
                let acc2 = acc.push(n);
                if acc2.len() < 4 && 0 <= e && e + 1 < s.len() && s[e] == '.' && is_digit(s[e + 1]) {
                    parse_components(s, e + 1, acc2)
                } else {
                    Some((acc2, e))
                }
            },
        }
    }
}

/// Index one past the run of letters that starts at `i`.
pub open spec fn letters_end(s: Seq<char>, i: int) -> int
    decreases s.len() - i,
{
    if 0 <= i < s.len() && is_letter(s[i]) {
        letters_end(s, i + 1)
    } else {
        i
    }
}

/// Reads the stability suffix from position `i` to the end of `s`:
/// an optional `-`, `.` or `_`, a stability word, then an optional number
/// (itself optionally after `.` or `-`).
pub open spec fn parse_suffix(s: Seq<char>, i: int) -> Option<(Stability, Option<u32>)> {
    if i >= s.len() {
        Some((Stability::Stable, None))
    } else {
        let j = if s[i] == '-' || s[i] == '.' || s[i] == '_' { i + 1 } else { i };
        let k = letters_end(s, j);
        if k == j {
            None
        } else {
            match suffix_stability(s.subrange(j, k)) {
                None => None,
                Some(st) => {
                    if k >= s.len() {
                        Some((st, None))
                    } else {
                        let m = if s[k] == '.' || s[k] == '-' { k + 1 } else { k };
                        match parse_number(s, m) {
                            Some((n, e)) => if e == s.len() { Some((st, Some(n))) } else { None },
                            None => None,
                        }
                    }
                },
            }
        }
    }
}

pub open spec fn has_dev_prefix(s: Seq<char>) -> bool {
    s.len() > 4 && s[0] == 'd' && s[1] == 'e' && s[2] == 'v' && s[3] == '-'
}

pub open spec fn has_v_prefix(s: Seq<char>) -> bool {
    s.len() > 0 && (s[0] == 'v' || s[0] == 'V')
}

/// Builds a version from its numbers (missing ones are 0) and suffix.
pub open spec fn version_from_parts(comps: Seq<u32>, st: Stability, n: Option<u32>, v: bool) -> VersionView {
    VersionView {
        major: comps[0],
        minor: if comps.len() > 1 { comps[1] } else { 0 },
        patch: if comps.len() > 2 { comps[2] } else { 0 },
        tweak: if comps.len() > 3 { Some(comps[3]) } else { None },
        stability: st,
        stability_n: n,
        dev_branch: None,
        is_v_prefixed: v,
    }
}

/// What a branch name `dev-<b>` parses to.
pub open spec fn dev_branch_version(b: Seq<char>) -> VersionView {
    VersionView {
        major: 0,
        minor: 0,
        patch: 0,
        tweak: None,
        stability: Stability::Dev,
        stability_n: None,
        dev_branch: Some(b),
        is_v_prefixed: false,
    }
}

/// Parses a version string; also gives how many numbers it spelled out
/// (0 for a branch name). `None` when the string is not a version.
pub open spec fn parse_version_counted(s: Seq<char>) -> Option<(VersionView, nat)> {
    if has_dev_prefix(s) {
        Some((dev_branch_version(s.skip(4)), 0))
    } else {
        let start: int = if has_v_prefix(s) { 1 } else { 0 };
        match parse_components(s, start, Seq::empty()) {
            None => None,
            Some((comps, e)) => match parse_suffix(s, e) {
                None => None,
                Some((st, n)) => Some((version_from_parts(comps, st, n, has_v_prefix(s)), comps.len())),
            },
        }
    }
}

pub open spec fn parse_version(s: Seq<char>) -> Option<VersionView> {
    match parse_version_counted(s) {
        Some((v, _)) => Some(v),
        None => None,
    }
}

/// The suffix written after the numbers of a version.
pub open spec fn suffix_chars(st: Stability, n: Option<u32>) -> Seq<char> {
    match (st, n) {
        (Stability::Stable, None) => Seq::empty(),
        (Stability::Stable, Some(k)) => seq!['-', 'p', 'l'] + nat_chars(k as nat),
        (_, None) => seq!['-'] + stability_name(st),
        (_, Some(k)) => seq!['-'] + stability_name(st) + nat_chars(k as nat),
    }
}

/// Composer's rendering of a version: `M.m.p[.t][-suffix]` or `dev-<branch>`.
pub open spec fn version_chars(v: VersionView) -> Seq<char> {
    match v.dev_branch {
        Some(b) => seq!['d', 'e', 'v', '-'] + b,
        None => {
            let base = nat_chars(v.major as nat) + seq!['.'] + nat_chars(v.minor as nat) + seq!['.']
                + nat_chars(v.patch as nat);
            let with_tweak = match v.tweak {
                Some(t) => base + seq!['.'] + nat_chars(t as nat),
                None => base,
            };
            with_tweak + suffix_chars(v.stability, v.stability_n)
        },
    }
}

/// Ordering key of a version: numbers (a missing 4th counts as 0), then
/// stability, then the stability number (missing counts as 0).
pub open spec fn version_key(v: VersionView) -> (int, int, int, int, int, int) {
    (
        v.major as int,
        v.minor as int,
        v.patch as int,
        match v.tweak { Some(t) => t as int, None => 0 },
        stability_rank(v.stability) as int,
        match v.stability_n { Some(k) => k as int, None => 0 },
    )
}

/// Lexicographic `<` on version keys.
pub open spec fn key_lt(a: (int, int, int, int, int, int), b: (int, int, int, int, int, int)) -> bool {
    if a.0 != b.0 {
        a.0 < b.0
    } else if a.1 != b.1 {
        a.1 < b.1
    } else if a.2 != b.2 {
        a.2 < b.2
    } else if a.3 != b.3 {
        a.3 < b.3
    } else if a.4 != b.4 {
        a.4 < b.4
    } else {
        a.5 < b.5
    }
}

/// `a` orders strictly before `b`.
pub open spec fn version_lt(a: VersionView, b: VersionView) -> bool {
    key_lt(version_key(a), version_key(b))
}

// ---------------------------------------------------------------------------
// Executable parsing
// ---------------------------------------------------------------------------

proof fn lemma_digits_num_mono(s: Seq<char>, i: int, j: int, k: int)
    requires
        i <= j <= k,
    ensures
        digits_num(s, i, j) <= digits_num(s, i, k),
    decreases k - j,
{
    if j < k {
        lemma_digits_num_mono(s, i, j, k - 1);
    }
}

/// Reads the number that starts at `start`.
pub fn parse_number_exec(s: &Vec<char>, start: usize) -> (r: Option<(u32, usize)>)
    requires
        start <= s.len(),
    ensures
        match r {
            None => parse_number(s@, start as int) is None,
            Some((n, e)) => parse_number(s@, start as int) == Some((n, e as int)) && start < e <= s.len(),
        },
{
    let mut i = start;
    let mut value: u32 = 0;
    let mut overflow = false;
    while i < s.len() && is_digit_exec(s[i])
        invariant
            start <= i <= s.len(),
            digits_end(s@, i as int) == digits_end(s@, start as int),
            !overflow ==> value as nat == digits_num(s@, start as int, i as int),
            overflow ==> digits_num(s@, start as int, i as int) > u32::MAX,
        decreases s.len() - i,
    {
        let d: u32 = (s[i] as u32) - ('0' as u32);
        assert(d as nat == digit_value(s@[i as int]));
        if !overflow {
            if value > (u32::MAX - d) / 10 {
                overflow = true;
            } else {
                value = value * 10 + d;
            }
        }
        i += 1;
        proof {
            if overflow {
                lemma_digits_num_mono(s@, start as int, (i - 1) as int, i as int);
            }
        }
    }
    if i == start || overflow {
        None
    } else {
        Some((value, i))
    }
}

fn parse_components_exec(s: &Vec<char>, start: usize) -> (r: Option<(Vec<u32>, usize)>)
    requires
        start <= s.len(),
    ensures
        match r {
            None => parse_components(s@, start as int, Seq::empty()) is None,
            Some((c, e)) => parse_components(s@, start as int, Seq::empty()) == Some((c@, e as int))
                && e <= s.len(),
        },
{
    let mut acc: Vec<u32> = Vec::new();
    let mut i = start;
    loop
        invariant
            i <= s.len(),
            acc.len() < 4,
            parse_components(s@, i as int, acc@) == parse_components(s@, start as int, Seq::empty()),
        decreases 4 - acc.len(),
    {
        match parse_number_exec(s, i) {
            None => {
                return None;
            },
            Some((n, e)) => {
                acc.push(n);
                if acc.len() < 4 && e < s.len() && e + 1 < s.len() && s[e] == '.' && is_digit_exec(s[e + 1]) {
                    i = e + 1;
                } else {
                    return Some((acc, e));
                }
            },
        }
    }
}

fn letters_end_exec(s: &Vec<char>, start: usize) -> (e: usize)
    requires
        start <= s.len(),
    ensures
        e as int == letters_end(s@, start as int),
        start <= e <= s.len(),
{
    let mut i = start;
    while i < s.len() && is_letter_exec(s[i])
        invariant
            start <= i <= s.len(),
            letters_end(s@, i as int) == letters_end(s@, start as int),
        decreases s.len() - i,
    {
        i += 1;
    }
    i
}

fn parse_suffix_exec(s: &Vec<char>, i: usize) -> (r: Option<(Stability, Option<u32>)>)
    requires
        i <= s.len(),
    ensures
        r == parse_suffix(s@, i as int),
{
    if i >= s.len() {
        return Some((Stability::Stable, None));
    }
    let j = if s[i] == '-' || s[i] == '.' || s[i] == '_' { i + 1 } else { i };
    let k = letters_end_exec(s, j);
    if k == j {
        return None;
    }
    let word = sub_vec(s, j, k);
    match suffix_stability_chars(&word) {
        None => None,
        Some(st) => {
            if k >= s.len() {
                Some((st, None))
            } else {
                let m = if s[k] == '.' || s[k] == '-' { k + 1 } else { k };
                match parse_number_exec(s, m) {
                    Some((n, e)) => if e == s.len() { Some((st, Some(n))) } else { None },
                    None => None,
                }
            }
        },
    }
}

/// Parses a version held as characters; also gives how many numbers it
/// spelled out.
pub fn parse_version_chars(s: &Vec<char>) -> (r: Option<(Version, usize)>)
    ensures
        match r {
            None => parse_version_counted(s@) is None,
            Some((v, c)) => parse_version_counted(s@) == Some((v@, c as nat)),
        },
{
    if s.len() > 4 && s[0] == 'd' && s[1] == 'e' && s[2] == 'v' && s[3] == '-' {
        let b = sub_vec(s, 4, s.len());
        let name = chars_to_string(b.as_slice());
        assert(b@ =~= s@.skip(4));
        let v = Version {
            major: 0,
            minor: 0,
            patch: 0,
            tweak: None,
            stability: Stability::Dev,
            stability_n: None,
            dev_branch: Some(name),
            is_v_prefixed: false,
        };
        return Some((v, 0));
    }
    let vp = s.len() > 0 && (s[0] == 'v' || s[0] == 'V');
    let start: usize = if vp { 1 } else { 0 };
    match parse_components_exec(s, start) {
        None => None,
        Some((comps, e)) => {
            assert(comps.len() >= 1 && comps.len() <= 4) by {
                lemma_components_len(s@, start as int, Seq::empty());
            }
            match parse_suffix_exec(s, e) {
                None => None,
                Some((st, n)) => {
                    let v = Version {
                        major: comps[0],
                        minor: if comps.len() > 1 { comps[1] } else { 0 },
                        patch: if comps.len() > 2 { comps[2] } else { 0 },
                        tweak: if comps.len() > 3 { Some(comps[3]) } else { None },
                        stability: st,
                        stability_n: n,
                        dev_branch: None,
                        is_v_prefixed: vp,
                    };
                    Some((v, comps.len()))
                },
            }
        },
    }
}

/// The numbers read by `parse_components` are between one and four.
pub proof fn lemma_components_len(s: Seq<char>, i: int, acc: Seq<u32>)
    ensures
        parse_components(s, i, acc) matches Some((c, _)) ==> acc.len() < c.len() <= 4
            && c.take(acc.len() as int) == acc,
    decreases 4 - acc.len(),
{
    if acc.len() < 4 {
        match parse_number(s, i) {
            None => {},
            Some((n, e)) => {
                let acc2 = acc.push(n);
                if acc2.len() < 4 && 0 <= e && e + 1 < s.len() && s[e] == '.' && is_digit(s[e + 1]) {
                    lemma_components_len(s, e + 1, acc2);
                    if let Some((c, _)) = parse_components(s, i, acc) {
                        assert(c.take(acc.len() as int) =~= c.take(acc2.len() as int).take(acc.len() as int));
                        assert(acc2.take(acc.len() as int) =~= acc);
                    }
                } else {
                    assert(acc2.take(acc.len() as int) =~= acc);
                }
            },
        }
    }
}

impl Version {
    /// Parses a Composer version: `1.2.3`, `1.2`, `1.2.3.4`, `v1.2.3`,
    /// `1.2.3-beta.2`, `1.2.3-RC1`, `1.2.3-dev`, `dev-main`, ...
    pub fn parse(s: &str) -> (r: Result<Self, VersionError>)
        ensures
            match r {
                Ok(v) => parse_version(s@) == Some(v@),
                Err(VersionError::Invalid(m)) => parse_version(s@) is None && m@ == s@,
            },
    {
        let cs = str_chars(s);
        match parse_version_chars(&cs) {
            Some((v, _)) => Ok(v),
            None => Err(VersionError::Invalid(chars_to_string(cs.as_slice()))),
        }
    }

    /// Composer's rendering: `M.m.p`, a 4th number when present, then the
    /// suffix (`-alpha2`, `-RC1`, `-dev`, `-pl3`); `dev-<branch>` for branches.
    /// A `v` prefix read on input is not written.
    pub fn to_composer_string(&self) -> (r: String)
        ensures
            r@ == version_chars(self@),
    {
        let mut out: Vec<char> = Vec::new();
        match &self.dev_branch {
            Some(b) => {
                push_str(&mut out, "dev-");
                proof { reveal_strlit("dev-"); }
                push_str(&mut out, b.as_str());
                assert(out@ =~= version_chars(self@));
            },
            None => {
                push_u32(&mut out, self.major);
                out.push('.');
                push_u32(&mut out, self.minor);
                out.push('.');
                push_u32(&mut out, self.patch);
                let ghost base = out@;
                match self.tweak {
                    Some(t) => {
                        out.push('.');
                        push_u32(&mut out, t);
                    },
                    None => {},
                }
                let ghost with_tweak = out@;
                match (self.stability, self.stability_n) {
                    (Stability::Stable, None) => {},
                    (Stability::Stable, Some(k)) => {
                        push_str(&mut out, "-pl");
                        proof { reveal_strlit("-pl"); }
                        push_u32(&mut out, k);
                    },
                    (st, None) => {
                        out.push('-');
                        push_str(&mut out, st.as_str());
                    },
                    (st, Some(k)) => {
                        out.push('-');
                        push_str(&mut out, st.as_str());
                        push_u32(&mut out, k);
                    },
                }
                assert(out@ =~= version_chars(self@));
            },
        }
        chars_to_string(out.as_slice())
    }

    /// Copy of this version with the same content.
    pub fn copy(&self) -> (r: Version)
        ensures
            r@ == self@,
    {
        Version {
            major: self.major,
            minor: self.minor,
            patch: self.patch,
            tweak: self.tweak,
            stability: self.stability,
            stability_n: self.stability_n,
            dev_branch: match &self.dev_branch {
                Some(b) => Some(b.clone()),
                None => None,
            },
            is_v_prefixed: self.is_v_prefixed,
        }
    }
}

/// `a` orders strictly before `b` (branch names aside, by numbers, then
/// stability, then stability number).
pub fn version_lt_exec(a: &Version, b: &Version) -> (r: bool)
    ensures
        r == version_lt(a@, b@),
{
    let at: u32 = match a.tweak { Some(t) => t, None => 0 };
    let bt: u32 = match b.tweak { Some(t) => t, None => 0 };
    let an: u32 = match a.stability_n { Some(t) => t, None => 0 };
    let bn: u32 = match b.stability_n { Some(t) => t, None => 0 };
    let ar = stability_rank_exec(a.stability);
    let br = stability_rank_exec(b.stability);
    if a.major != b.major {
        a.major < b.major
    } else if a.minor != b.minor {
        a.minor < b.minor
    } else if a.patch != b.patch {
        a.patch < b.patch
    } else if at != bt {
        at < bt
    } else if ar != br {
        ar < br
    } else {
        an < bn
    }
}

// ---------------------------------------------------------------------------
// Rendering reads back
// ---------------------------------------------------------------------------

proof fn lemma_digit_char(d: nat)
    requires
        d < 10,
    ensures
        is_digit(digit_char(d)),
        digit_value(digit_char(d)) == d,
{
    if d == 0 {
        assert(digit_char(0) == '0');
    } else if d == 1 {
        assert(digit_char(1) == '1');
    } else if d == 2 {
        assert(digit_char(2) == '2');
    } else if d == 3 {
        assert(digit_char(3) == '3');
    } else if d == 4 {
        assert(digit_char(4) == '4');
    } else if d == 5 {
        assert(digit_char(5) == '5');
    } else if d == 6 {
        assert(digit_char(6) == '6');
    } else if d == 7 {
        assert(digit_char(7) == '7');
    } else if d == 8 {
        assert(digit_char(8) == '8');
    } else {
        assert(digit_char(9) == '9');
    }
}

/// `digits_num` reads only the characters in its range.
proof fn lemma_digits_num_shift(t: Seq<char>, d: Seq<char>, i: int, m: int)
    requires
        0 <= i,
        0 <= m <= d.len(),
        i + d.len() <= t.len(),
        forall|k: int| 0 <= k < d.len() ==> #[trigger] t[i + k] == d[k],
    ensures
        digits_num(t, i, i + m) == digits_num(d, 0, m),
    decreases m,
{
    if m > 0 {
        lemma_digits_num_shift(t, d, i, m - 1);
        assert(t[i + m - 1] == d[m - 1]);
    }
}

/// The decimal rendering of `n` is non-empty, all digits, and reads back as `n`.
pub proof fn lemma_nat_chars(n: nat)
    ensures
        nat_chars(n).len() >= 1,
        forall|i: int| 0 <= i < nat_chars(n).len() ==> is_digit(#[trigger] nat_chars(n)[i]),
        digits_num(nat_chars(n), 0, nat_chars(n).len() as int) == n,
    decreases n,
{
    if n < 10 {
        lemma_digit_char(n);
        assert(digits_num(nat_chars(n), 0, 0) == 0);
    } else {
        let q = (n / 10) as nat;
        let r = (n % 10) as nat;
        lemma_nat_chars(q);
        lemma_digit_char(r);
        let p = nat_chars(q);
        let s = p.push(digit_char(r));
        assert(nat_chars(n) == s);
        lemma_digits_num_shift(s, p, 0, p.len() as int);
        assert(digits_num(s, 0, s.len() as int) == digits_num(s, 0, p.len() as int) * 10 + digit_value(s[p.len() as int]));
        assert(n == q * 10 + r) by (nonlinear_arith)
            requires
                q == n / 10,
                r == n % 10,
        ;
    }
}

proof fn lemma_digits_end_at(t: Seq<char>, i: int, e: int)
    requires
        0 <= i <= e <= t.len(),
        forall|k: int| i <= k < e ==> is_digit(#[trigger] t[k]),
        e == t.len() || !is_digit(t[e]),
    ensures
        digits_end(t, i) == e,
    decreases e - i,
{
    if i < e {
        lemma_digits_end_at(t, i + 1, e);
    }
}

/// A rendered number read back in place, where it is followed by the end
/// or by a character that is not a digit.
proof fn lemma_number_at(t: Seq<char>, i: int, x: u32)
    requires
        0 <= i,
        i + nat_chars(x as nat).len() <= t.len(),
        forall|k: int| 0 <= k < nat_chars(x as nat).len() ==> #[trigger] t[i + k] == nat_chars(x as nat)[k],
        i + nat_chars(x as nat).len() == t.len() || !is_digit(t[i + nat_chars(x as nat).len()]),
    ensures
        parse_number(t, i) == Some((x, i + nat_chars(x as nat).len())),
{
    let d = nat_chars(x as nat);
    lemma_nat_chars(x as nat);
    assert forall|k: int| i <= k < i + d.len() implies is_digit(#[trigger] t[k]) by {
        assert(t[i + (k - i)] == d[k - i]);
    }
    lemma_digits_end_at(t, i, i + d.len());
    lemma_digits_num_shift(t, d, i, d.len() as int);
}

proof fn lemma_letters_end_at(t: Seq<char>, i: int, e: int)
    requires
        0 <= i <= e <= t.len(),
        forall|k: int| i <= k < e ==> is_letter(#[trigger] t[k]),
        e == t.len() || !is_letter(t[e]),
    ensures
        letters_end(t, i) == e,
    decreases e - i,
{
    if i < e {
        lemma_letters_end_at(t, i + 1, e);
    }
}

/// A rendered number read back from the start of its own text.
pub proof fn lemma_number_at_start(x: u32)
    ensures
        parse_number(nat_chars(x as nat), 0) == Some((x, nat_chars(x as nat).len() as int)),
{
    let t = nat_chars(x as nat);
    assert forall|k: int| 0 <= k < t.len() implies #[trigger] t[0 + k] == t[k] by {}
    lemma_number_at(t, 0, x);
}

/// The word written for a stability suffix.
pub open spec fn suffix_word(st: Stability, n: Option<u32>) -> Seq<char> {
    if st == Stability::Stable { seq!['p', 'l'] } else { stability_name(st) }
}

proof fn lemma_suffix_word(st: Stability, n: Option<u32>)
    requires
        !(st == Stability::Stable && n is None),
    ensures
        suffix_chars(st, n) == seq!['-'] + suffix_word(st, n) + match n {
            Some(k) => nat_chars(k as nat),
            None => Seq::empty(),
        },
        suffix_word(st, n).len() >= 2,
        forall|i: int| 0 <= i < suffix_word(st, n).len() ==> is_letter(#[trigger] suffix_word(st, n)[i]),
        suffix_stability(suffix_word(st, n)) == Some(st),
{
    let w = suffix_word(st, n);
    assert(lower_char('d') == 'd' && lower_char('e') == 'e' && lower_char('v') == 'v');
    assert(lower_char('a') == 'a' && lower_char('l') == 'l' && lower_char('p') == 'p' && lower_char('h') == 'h');
    assert(lower_char('b') == 'b' && lower_char('t') == 't');
    assert(lower_char('R') == 'r' && lower_char('C') == 'c');
    assert(lower_seq(w) =~= match st {
        Stability::Dev => seq!['d', 'e', 'v'],
        Stability::Alpha => seq!['a', 'l', 'p', 'h', 'a'],
        Stability::Beta => seq!['b', 'e', 't', 'a'],
        Stability::Rc => seq!['r', 'c'],
        Stability::Stable => seq!['p', 'l'],
    });
    match n {
        Some(k) => {
            assert(suffix_chars(st, n) =~= seq!['-'] + w + nat_chars(k as nat));
        },
        None => {
            assert(suffix_chars(st, n) =~= seq!['-'] + w + Seq::<char>::empty());
        },
    }
}

/// The suffix written for `(st, n)` reads back as `(st, n)`.
proof fn lemma_suffix_reads_back(t: Seq<char>, e: int, st: Stability, n: Option<u32>)
    requires
        0 <= e <= t.len(),
        t.skip(e) == suffix_chars(st, n),
    ensures
        parse_suffix(t, e) == Some((st, n)),
{
    if st == Stability::Stable && n is None {
        assert(t.skip(e).len() == 0);
    } else {
        lemma_suffix_word(st, n);
        let w = suffix_word(st, n);
        let j: int = e + 1;
        let k: int = j + w.len();
        assert(t.skip(e).len() == t.len() - e);
        assert(suffix_chars(st, n).len() >= 3);
        assert(t.skip(e)[0] == t[e]);
        assert forall|q: int| j <= q < k implies is_letter(#[trigger] t[q]) by {
            assert(t[q] == t.skip(e)[q - e]);
            assert(t.skip(e)[q - e] == w[q - j]);
        }
        match n {
            None => {
                assert(t.len() == k);
                lemma_letters_end_at(t, j, k);
                assert(t.subrange(j, k) =~= w) by {
                    assert forall|q: int| 0 <= q < w.len() implies t.subrange(j, k)[q] == w[q] by {
                        assert(t[j + q] == t.skip(e)[1 + q]);
                    }
                }
            },
            Some(x) => {
                let d = nat_chars(x as nat);
                lemma_nat_chars(x as nat);
                assert(t.len() == k + d.len());
                assert(t[k] == d[0]) by {
                    assert(t[k] == t.skip(e)[k - e]);
                }
                lemma_letters_end_at(t, j, k);
                assert(t.subrange(j, k) =~= w) by {
                    assert forall|q: int| 0 <= q < w.len() implies t.subrange(j, k)[q] == w[q] by {
                        assert(t[j + q] == t.skip(e)[1 + q]);
                    }
                }
                assert forall|q: int| 0 <= q < d.len() implies #[trigger] t[k + q] == d[q] by {
                    assert(t[k + q] == t.skip(e)[1 + w.len() + q]);
                }
                lemma_number_at(t, k, x);
            },
        }
    }
}

/// Places the rendering `d` of a number at `i` in `t`.
pub open spec fn placed(t: Seq<char>, i: int, d: Seq<char>) -> bool {
    &&& 0 <= i
    &&& i + d.len() <= t.len()
    &&& forall|k: int| 0 <= k < d.len() ==> #[trigger] t[i + k] == d[k]
}

/// A version without a branch name reads back from its rendering, without
/// the `v` prefix.
proof fn lemma_numbers_read_back(v: VersionView)
    requires
        v.dev_branch is None,
    ensures
        parse_version(version_chars(v)) == Some(VersionView { is_v_prefixed: false, ..v }),
{
    let a = nat_chars(v.major as nat);
    let b = nat_chars(v.minor as nat);
    let c = nat_chars(v.patch as nat);
    let sfx = suffix_chars(v.stability, v.stability_n);
    lemma_nat_chars(v.major as nat);
    lemma_nat_chars(v.minor as nat);
    lemma_nat_chars(v.patch as nat);
    let base = a + seq!['.'] + b + seq!['.'] + c;
    let x = match v.tweak {
        Some(tw) => seq!['.'] + nat_chars(tw as nat),
        None => Seq::empty(),
    };
    let t = version_chars(v);
    assert(t =~= base + x + sfx);
    let b0: int = a.len() as int + 1;
    let c0: int = b0 + b.len() + 1;
    let c1: int = c0 + c.len();
    let e: int = c1 + x.len();
    assert(t.skip(e) =~= sfx);
    // The suffix never starts with a digit or a dot.
    assert(sfx.len() > 0 ==> sfx[0] == '-') by {
        if !(v.stability == Stability::Stable && v.stability_n is None) {
            lemma_suffix_word(v.stability, v.stability_n);
        }
    }
    assert forall|k: int| 0 <= k < a.len() implies #[trigger] t[0 + k] == a[k] by {}
    assert forall|k: int| 0 <= k < b.len() implies #[trigger] t[b0 + k] == b[k] by {}
    assert forall|k: int| 0 <= k < c.len() implies #[trigger] t[c0 + k] == c[k] by {}
    lemma_number_at(t, 0, v.major);
    lemma_number_at(t, b0, v.minor);
    assert(t[a.len() as int] == '.');
    assert(t[b0 + b.len()] == '.');
    assert(is_digit(t[b0]) && is_digit(t[c0]));
    let s0: Seq<u32> = Seq::empty();
    let s1 = s0.push(v.major);
    let s2 = s1.push(v.minor);
    let s3 = s2.push(v.patch);
    match v.tweak {
        Some(tw) => {
            let d = nat_chars(tw as nat);
            lemma_nat_chars(tw as nat);
            let d0: int = c1 + 1;
            assert(t[c1] == '.');
            assert(is_digit(t[d0])) by {
                assert(t[d0] == d[0]);
            }
            lemma_number_at(t, c0, v.patch);
            assert forall|k: int| 0 <= k < d.len() implies #[trigger] t[d0 + k] == d[k] by {}
            assert(d0 + d.len() == e);
            lemma_number_at(t, d0, tw);
            let s4 = s3.push(tw);
            assert(parse_components(t, d0, s3) == Some((s4, e)));
            assert(parse_components(t, c0, s2) == Some((s4, e)));
            assert(parse_components(t, b0, s1) == Some((s4, e)));
            assert(parse_components(t, 0, s0) == Some((s4, e)));
        },
        None => {
            assert(e == c1);
            lemma_number_at(t, c0, v.patch);
            assert(parse_components(t, c0, s2) == Some((s3, e)));
            assert(parse_components(t, b0, s1) == Some((s3, e)));
            assert(parse_components(t, 0, s0) == Some((s3, e)));
        },
    }
    lemma_suffix_reads_back(t, e, v.stability, v.stability_n);
    assert(!has_dev_prefix(t)) by {
        assert(is_digit(t[0]));
    }
    assert(!has_v_prefix(t)) by {
        assert(is_digit(t[0]));
    }
}

/// A branch version reads back from its rendering.
proof fn lemma_branch_reads_back(br: Seq<char>)
    requires
        br.len() > 0,
    ensures
        parse_version(version_chars(dev_branch_version(br))) == Some(dev_branch_version(br)),
{
    let t = version_chars(dev_branch_version(br));
    assert(t =~= seq!['d', 'e', 'v', '-'] + br);
    assert(t.skip(4) =~= br);
}

/// Reading what `to_composer_string` writes for a parsed version gives the
/// same version back, except that a `v` prefix is not written.
pub proof fn law_version_round_trip(s: Seq<char>)
    ensures
        parse_version(s) matches Some(v) ==> parse_version(version_chars(v)) == Some(VersionView { is_v_prefixed: false, ..v }),
{
    if has_dev_prefix(s) {
        lemma_branch_reads_back(s.skip(4));
    } else if let Some(v) = parse_version(s) {
        lemma_numbers_read_back(v);
    }
}

/// Rendering is stable: the rendering of what a rendering reads back as is
/// the same text.
pub proof fn law_version_rendering_stable(s: Seq<char>)
    ensures
        parse_version(s) matches Some(v) ==> (parse_version(version_chars(v)) matches Some(w) && version_chars(w) == version_chars(v)),
{
    law_version_round_trip(s);
}

/// The four numbers of a version, a missing fourth counting as 0.
pub open spec fn numbers_of(v: VersionView) -> (int, int, int, int) {
    (v.major as int, v.minor as int, v.patch as int, match v.tweak { Some(t) => t as int, None => 0 })
}

/// The stability number of a version, a missing one counting as 0.
pub open spec fn stability_number_of(v: VersionView) -> int {
    match v.stability_n { Some(k) => k as int, None => 0 }
}

/// Lexicographic `<` on four numbers.
pub open spec fn numbers_before(a: (int, int, int, int), b: (int, int, int, int)) -> bool {
    a.0 < b.0 || (a.0 == b.0 && (a.1 < b.1 || (a.1 == b.1 && (a.2 < b.2 || (a.2 == b.2 && a.3 < b.3)))))
}

/// The stability levels in order: `dev < alpha < beta < RC < stable`.
pub proof fn law_stability_levels_ordered()
    ensures
        stability_rank(Stability::Dev) < stability_rank(Stability::Alpha),
        stability_rank(Stability::Alpha) < stability_rank(Stability::Beta),
        stability_rank(Stability::Beta) < stability_rank(Stability::Rc),
        stability_rank(Stability::Rc) < stability_rank(Stability::Stable),
{
}

/// Versions order by their numbers first, whatever their stability: lower
/// numbers come first.
pub proof fn law_numbers_decide_first(a: VersionView, b: VersionView)
    requires
        numbers_before(numbers_of(a), numbers_of(b)),
    ensures
        version_lt(a, b),
        !version_lt(b, a),
{
}

/// Stability decides before the stability number: of two versions with the
/// same numbers, the less stable one comes first whatever the stability
/// numbers (`1.0.0-beta2 < 1.0.0-RC1 < 1.0.0`).
pub proof fn law_stability_before_number(a: VersionView, b: VersionView)
    requires
        numbers_of(a) == numbers_of(b),
        stability_rank(a.stability) < stability_rank(b.stability),
    ensures
        version_lt(a, b),
        !version_lt(b, a),
{
}

/// Within one stability level and the same numbers, the stability number
/// decides (`1.0.0-beta1 < 1.0.0-beta2`), and versions equal in all of these
/// are not ordered either way.
pub proof fn law_stability_number_last(a: VersionView, b: VersionView)
    requires
        numbers_of(a) == numbers_of(b),
        a.stability == b.stability,
    ensures
        version_lt(a, b) == (stability_number_of(a) < stability_number_of(b)),
{
}

/// `version_lt` is a strict order: never reflexive, transitive, and any two
/// versions are ordered one way or the other unless they agree in numbers,
/// stability and stability number.
pub proof fn law_version_order(a: VersionView, b: VersionView, c: VersionView)
    ensures
        !version_lt(a, a),
        version_lt(a, b) && version_lt(b, c) ==> version_lt(a, c),
        version_lt(a, b) || version_lt(b, a) || (numbers_of(a) == numbers_of(b) && a.stability == b.stability
            && stability_number_of(a) == stability_number_of(b)),
{
    assert(stability_rank(a.stability) == stability_rank(b.stability) ==> a.stability == b.stability);
}

} // verus!
