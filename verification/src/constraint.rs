//! Composer constraint grammar: parsing and matching.
//!
//! A constraint is a disjunction (`||`) of branches; a branch is a
//! conjunction (`,` or whitespace) of atoms. Ranges written with `^`, `~`,
//! wildcards and hyphens are read into the comparison atoms they stand for,
//! with Composer's bounds (`^1.2` is `>=1.2.0-dev <2.0.0-dev`).
use vstd::prelude::*;
use crate::text::{chars_eq, chars_to_string, is_digit, lower_seq, lower_vec, str_chars, sub_vec};
use crate::version::{
    lemma_components_len, numbers_before, numbers_of, parse_version_chars, parse_version_counted, stability_rank,
    stability_rank_exec, version_key, version_lt, version_lt_exec, Stability, Version,
    VersionView,
};

verus! {

/// Why a constraint string was refused.
#[derive(Debug, Clone, PartialEq, Eq)]
pub enum ConstraintError {
    Invalid(String),
}

impl ConstraintError {
    /// The error as text: `invalid constraint: <input>`.
    pub fn message(&self) -> (r: String)
        ensures
            r@ == "invalid constraint: "@ + match self {
                ConstraintError::Invalid(m) => m@,
            },
    {
        proof {
            reveal_strlit("invalid constraint: ");
        }
        let mut out: Vec<char> = Vec::new();
        crate::text::push_str(&mut out, "invalid constraint: ");
        match self {
            ConstraintError::Invalid(m) => crate::text::push_str(&mut out, m.as_str()),
        }
        crate::text::chars_to_string(out.as_slice())
    }
}

/// A parsed constraint: the disjunction of its branches.
#[derive(Debug, Clone, PartialEq, Eq)]
pub struct Constraint {
    /// All branches are OR'd.
    pub branches: Vec<Branch>,
}

/// One OR-branch: the conjunction of its atoms (none = match anything).
#[derive(Debug, Clone, PartialEq, Eq)]
pub struct Branch {
    pub atoms: Vec<Atom>,
}

#[derive(Debug, Clone, PartialEq, Eq)]
pub enum Atom {
    /// Exactly this version (`1.2.3`, `==1.2.3`, `dev-main`).
    Exact(Version),
    /// `^lower`: from `lower` up to the next significant release.
    Caret { lower: Version },
    /// `~lower`: from `lower` up to the next minor (next patch with four numbers).
    Tilde { lower: Version },
    /// `>`, `>=`, `<`, `<=`, `!=` against a version.
    Cmp { op: CmpOp, version: Version },
    /// Both ends inclusive.
    Hyphen { lower: Version, upper: Version },
    /// `@dev`, `@stable`, ...: at least this stable.
    StabilityFlag(StabilityFlag),
}

#[derive(Debug, Clone, Copy, PartialEq, Eq, Structural)]
pub enum CmpOp {
    Gt,
    Ge,
    Lt,
    Le,
    Ne,
}

#[derive(Debug, Clone, Copy, PartialEq, Eq, Structural)]
pub enum StabilityFlag {
    Dev,
    Alpha,
    Beta,
    Rc,
    Stable,
}

pub open spec fn flag_stability(f: StabilityFlag) -> Stability {
    match f {
        StabilityFlag::Dev => Stability::Dev,
        StabilityFlag::Alpha => Stability::Alpha,
        StabilityFlag::Beta => Stability::Beta,
        StabilityFlag::Rc => Stability::Rc,
        StabilityFlag::Stable => Stability::Stable,
    }
}

fn flag_stability_exec(f: StabilityFlag) -> (s: Stability)
    ensures
        s == flag_stability(f),
{
    match f {
        StabilityFlag::Dev => Stability::Dev,
        StabilityFlag::Alpha => Stability::Alpha,
        StabilityFlag::Beta => Stability::Beta,
        StabilityFlag::Rc => Stability::Rc,
        StabilityFlag::Stable => Stability::Stable,
    }
}

/// Mathematical content of an atom.
pub enum AtomView {
    Exact(VersionView),
    Caret(VersionView),
    Tilde(VersionView),
    Cmp(CmpOp, VersionView),
    Hyphen(VersionView, VersionView),
    Flag(StabilityFlag),
}

impl View for Atom {
    type V = AtomView;

    open spec fn view(&self) -> AtomView {
        match self {
            Atom::Exact(v) => AtomView::Exact(v@),
            Atom::Caret { lower } => AtomView::Caret(lower@),
            Atom::Tilde { lower } => AtomView::Tilde(lower@),
            Atom::Cmp { op, version } => AtomView::Cmp(*op, version@),
            Atom::Hyphen { lower, upper } => AtomView::Hyphen(lower@, upper@),
            Atom::StabilityFlag(f) => AtomView::Flag(*f),
        }
    }
}

impl View for Branch {
    type V = Seq<AtomView>;

    open spec fn view(&self) -> Seq<AtomView> {
        self.atoms@.map_values(|a: Atom| a@)
    }
}

impl View for Constraint {
    type V = Seq<Seq<AtomView>>;

    open spec fn view(&self) -> Seq<Seq<AtomView>> {
        self.branches@.map_values(|b: Branch| b@)
    }
}

// ---------------------------------------------------------------------------
// Matching
// ---------------------------------------------------------------------------

/// The numeric part of a version (a missing 4th number counts as 0).
pub open spec fn num_key(v: VersionView) -> (int, int, int, int) {
    (v.major as int, v.minor as int, v.patch as int, match v.tweak { Some(t) => t as int, None => 0 })
}

pub open spec fn num_lt(a: (int, int, int, int), b: (int, int, int, int)) -> bool {
    if a.0 != b.0 {
        a.0 < b.0
    } else if a.1 != b.1 {
        a.1 < b.1
    } else if a.2 != b.2 {
        a.2 < b.2
    } else {
        a.3 < b.3
    }
}

/// `v` is the same version as `x`: same branch name, or (both without one)
/// the same numbers, stability and stability number.
pub open spec fn same_version(x: VersionView, v: VersionView) -> bool {
    match x.dev_branch {
        Some(b) => v.dev_branch == Some(b),
        None => v.dev_branch is None && version_key(v) == version_key(x),
    }
}

/// Upper end (exclusive, numbers only) of `^lower`.
pub open spec fn caret_upper(l: VersionView) -> (int, int, int, int) {
    if l.major > 0 {
        (l.major + 1, 0, 0, 0)
    } else if l.minor > 0 {
        (0, l.minor + 1, 0, 0)
    } else {
        (0, 0, l.patch + 1, 0)
    }
}

/// Upper end (exclusive, numbers only) of `~lower`.
pub open spec fn tilde_upper(l: VersionView) -> (int, int, int, int) {
    match l.tweak {
        Some(_) => (l.major as int, l.minor as int, l.patch + 1, 0),
        None => (l.major as int, l.minor + 1, 0, 0),
    }
}

pub open spec fn atom_matches(a: AtomView, v: VersionView) -> bool {
    match a {
        AtomView::Exact(x) => same_version(x, v),
        AtomView::Cmp(op, x) => match op {
            CmpOp::Ne => !same_version(x, v),
            CmpOp::Gt => v.dev_branch is None && x.dev_branch is None && version_lt(x, v),
            CmpOp::Ge => v.dev_branch is None && x.dev_branch is None && !version_lt(v, x),
            CmpOp::Lt => v.dev_branch is None && x.dev_branch is None && version_lt(v, x),
            CmpOp::Le => v.dev_branch is None && x.dev_branch is None && !version_lt(x, v),
        },
        AtomView::Caret(l) => v.dev_branch is None && !num_lt(num_key(v), num_key(l))
            && num_lt(num_key(v), caret_upper(l)),
        AtomView::Tilde(l) => v.dev_branch is None && !num_lt(num_key(v), num_key(l))
            && num_lt(num_key(v), tilde_upper(l)),
        AtomView::Hyphen(l, u) => v.dev_branch is None && !version_lt(v, l) && !version_lt(u, v),
        AtomView::Flag(f) => stability_rank(v.stability) >= stability_rank(flag_stability(f)),
    }
}

pub open spec fn branch_matches(b: Seq<AtomView>, v: VersionView) -> bool {
    forall|i: int| 0 <= i < b.len() ==> atom_matches(#[trigger] b[i], v)
}

/// A constraint matches a version when one of its branches does.
pub open spec fn constraint_matches(c: Seq<Seq<AtomView>>, v: VersionView) -> bool {
    exists|i: int| 0 <= i < c.len() && branch_matches(#[trigger] c[i], v)
}

fn same_version_exec(x: &Version, v: &Version) -> (r: bool)
    ensures
        r == same_version(x@, v@),
{
    match &x.dev_branch {
        Some(b) => match &v.dev_branch {
            Some(c) => {
                let r = b.eq(c);
                assert(r == (b@ == c@));
                r
            },
            None => false,
        },
        None => {
            if v.dev_branch.is_some() {
                false
            } else {
                !version_lt_exec(x, v) && !version_lt_exec(v, x)
            }
        },
    }
}

fn num_lt_exec(a: (u64, u64, u64, u64), b: (u64, u64, u64, u64)) -> (r: bool)
    ensures
        r == num_lt((a.0 as int, a.1 as int, a.2 as int, a.3 as int), (b.0 as int, b.1 as int, b.2 as int, b.3 as int)),
{
    if a.0 != b.0 {
        a.0 < b.0
    } else if a.1 != b.1 {
        a.1 < b.1
    } else if a.2 != b.2 {
        a.2 < b.2
    } else {
        a.3 < b.3
    }
}

fn num_key_exec(v: &Version) -> (r: (u64, u64, u64, u64))
    ensures
        (r.0 as int, r.1 as int, r.2 as int, r.3 as int) == num_key(v@),
{
    let t: u64 = match v.tweak { Some(t) => t as u64, None => 0 };
    (v.major as u64, v.minor as u64, v.patch as u64, t)
}

fn atom_matches_exec(a: &Atom, v: &Version) -> (r: bool)
    ensures
        r == atom_matches(a@, v@),
{
    match a {
        Atom::Exact(x) => same_version_exec(x, v),
        Atom::Cmp { op, version } => {
            let x = version;
            match op {
                CmpOp::Ne => !same_version_exec(x, v),
                CmpOp::Gt => v.dev_branch.is_none() && x.dev_branch.is_none() && version_lt_exec(x, v),
                CmpOp::Ge => v.dev_branch.is_none() && x.dev_branch.is_none() && !version_lt_exec(v, x),
                CmpOp::Lt => v.dev_branch.is_none() && x.dev_branch.is_none() && version_lt_exec(v, x),
                CmpOp::Le => v.dev_branch.is_none() && x.dev_branch.is_none() && !version_lt_exec(x, v),
            }
        },
        Atom::Caret { lower } => {
            let l = lower;
            let kv = num_key_exec(v);
            let kl = num_key_exec(l);
            let up: (u64, u64, u64, u64) = if l.major > 0 {
                (l.major as u64 + 1, 0, 0, 0)
            } else if l.minor > 0 {
                (0, l.minor as u64 + 1, 0, 0)
            } else {
                (0, 0, l.patch as u64 + 1, 0)
            };
            v.dev_branch.is_none() && !num_lt_exec(kv, kl) && num_lt_exec(kv, up)
        },
        Atom::Tilde { lower } => {
            let l = lower;
            let kv = num_key_exec(v);
            let kl = num_key_exec(l);
            let up: (u64, u64, u64, u64) = match l.tweak {
                Some(_) => (l.major as u64, l.minor as u64, l.patch as u64 + 1, 0),
                None => (l.major as u64, l.minor as u64 + 1, 0, 0),
            };
            v.dev_branch.is_none() && !num_lt_exec(kv, kl) && num_lt_exec(kv, up)
        },
        Atom::Hyphen { lower, upper } => {
            v.dev_branch.is_none() && !version_lt_exec(v, lower) && !version_lt_exec(upper, v)
        },
        Atom::StabilityFlag(f) => {
            let fs = flag_stability_exec(*f);
            stability_rank_exec(v.stability) >= stability_rank_exec(fs)
        },
    }
}

fn branch_matches_exec(b: &Branch, v: &Version) -> (r: bool)
    ensures
        r == branch_matches(b@, v@),
{
    let mut i: usize = 0;
    while i < b.atoms.len()
        invariant
            i <= b.atoms.len(),
            forall|k: int| 0 <= k < i ==> atom_matches(#[trigger] b@[k], v@),
        decreases b.atoms.len() - i,
    {
        if !atom_matches_exec(&b.atoms[i], v) {
            assert(!atom_matches(b@[i as int], v@));
            return false;
        }
        i += 1;
    }
    true
}

// ---------------------------------------------------------------------------
// Parsing: specification
// ---------------------------------------------------------------------------

pub open spec fn is_space(c: char) -> bool {
    c == ' ' || c == '\t' || c == '\n' || c == '\r'
}

pub open spec fn is_or_sep(c: char) -> bool {
    c == '|'
}

pub open spec fn is_and_sep(c: char) -> bool {
    c == ',' || is_space(c)
}

pub open spec fn push_piece(acc: Seq<Seq<char>>, cur: Seq<char>) -> Seq<Seq<char>> {
    if cur.len() > 0 { acc.push(cur) } else { acc }
}

/// Non-empty pieces of `s` between `|` characters, scanning from `i`
/// (`cur` is the piece being read, `acc` the pieces already read).
pub open spec fn split_or_from(s: Seq<char>, i: int, cur: Seq<char>, acc: Seq<Seq<char>>) -> Seq<Seq<char>>
    decreases s.len() - i,
{
    if i >= s.len() || i < 0 {
        push_piece(acc, cur)
    } else if is_or_sep(s[i]) {
        split_or_from(s, i + 1, Seq::empty(), push_piece(acc, cur))
    } else {
        split_or_from(s, i + 1, cur.push(s[i]), acc)
    }
}

/// Non-empty pieces of `s` between commas and whitespace.
pub open spec fn split_and_from(s: Seq<char>, i: int, cur: Seq<char>, acc: Seq<Seq<char>>) -> Seq<Seq<char>>
    decreases s.len() - i,
{
    if i >= s.len() || i < 0 {
        push_piece(acc, cur)
    } else if is_and_sep(s[i]) {
        split_and_from(s, i + 1, Seq::empty(), push_piece(acc, cur))
    } else {
        split_and_from(s, i + 1, cur.push(s[i]), acc)
    }
}

pub open spec fn or_pieces(s: Seq<char>) -> Seq<Seq<char>> {
    split_or_from(s, 0, Seq::empty(), Seq::empty())
}

pub open spec fn and_pieces(s: Seq<char>) -> Seq<Seq<char>> {
    split_and_from(s, 0, Seq::empty(), Seq::empty())
}

/// The stability flag named after `@` (any letter case).
pub open spec fn flag_of(s: Seq<char>) -> Option<StabilityFlag> {
    let l = lower_seq(s);
    if l == seq!['d', 'e', 'v'] {
        Some(StabilityFlag::Dev)
    } else if l == seq!['a', 'l', 'p', 'h', 'a'] {
        Some(StabilityFlag::Alpha)
    } else if l == seq!['b', 'e', 't', 'a'] {
        Some(StabilityFlag::Beta)
    } else if l == seq!['r', 'c'] {
        Some(StabilityFlag::Rc)
    } else if l == seq!['s', 't', 'a', 'b', 'l', 'e'] {
        Some(StabilityFlag::Stable)
    } else {
        None
    }
}

/// Index of the first `@` in `s`, or `s.len()`.
pub open spec fn at_index(s: Seq<char>, i: int) -> int
    decreases s.len() - i,
{
    if i >= s.len() || i < 0 {
        s.len() as int
    } else if s[i] == '@' {
        i
    } else {
        at_index(s, i + 1)
    }
}

/// A plain version: no branch name.
pub open spec fn is_numbered(v: VersionView) -> bool {
    v.dev_branch is None
}

/// A lower bound: a version written without a suffix counts from its `-dev`.
pub open spec fn devify(v: VersionView) -> VersionView {
    if v.stability == Stability::Stable && v.stability_n is None {
        VersionView { stability: Stability::Dev, ..v }
    } else {
        v
    }
}

/// `M.m.p` with the given 4th number, at `-dev` stability.
pub open spec fn dev_bound(major: u32, minor: u32, patch: u32, tweak: Option<u32>) -> VersionView {
    VersionView {
        major,
        minor,
        patch,
        tweak,
        stability: Stability::Dev,
        stability_n: None,
        dev_branch: None,
        is_v_prefixed: false,
    }
}

/// Exclusive upper bound of `^v` where `v` spelled out `c` numbers.
pub open spec fn caret_bound(v: VersionView, c: nat) -> Option<VersionView> {
    if v.major > 0 || c == 1 {
        if v.major == u32::MAX { None } else { Some(dev_bound((v.major + 1) as u32, 0, 0, None)) }
    } else if v.minor > 0 || c == 2 {
        if v.minor == u32::MAX { None } else { Some(dev_bound(0, (v.minor + 1) as u32, 0, None)) }
    } else if v.patch > 0 || c == 3 {
        if v.patch == u32::MAX { None } else { Some(dev_bound(0, 0, (v.patch + 1) as u32, None)) }
    } else {
        match v.tweak {
            Some(t) => if t == u32::MAX { None } else { Some(dev_bound(0, 0, 0, Some((t + 1) as u32))) },
            None => None,
        }
    }
}

/// Exclusive upper bound of `~v` where `v` spelled out `c` numbers.
pub open spec fn tilde_bound(v: VersionView, c: nat) -> Option<VersionView> {
    if c <= 2 {
        if v.major == u32::MAX { None } else { Some(dev_bound((v.major + 1) as u32, 0, 0, None)) }
    } else if c == 3 {
        if v.minor == u32::MAX { None } else { Some(dev_bound(v.major, (v.minor + 1) as u32, 0, None)) }
    } else {
        if v.patch == u32::MAX { None } else { Some(dev_bound(v.major, v.minor, (v.patch + 1) as u32, None)) }
    }
}

/// Exclusive upper bound of a partial version `v` of `c` numbers
/// (`1.2` covers everything below `1.3.0-dev`).
pub open spec fn partial_bound(v: VersionView, c: nat) -> Option<VersionView> {
    if c == 1 {
        if v.major == u32::MAX { None } else { Some(dev_bound((v.major + 1) as u32, 0, 0, None)) }
    } else if c == 2 {
        if v.minor == u32::MAX { None } else { Some(dev_bound(v.major, (v.minor + 1) as u32, 0, None)) }
    } else {
        if v.patch == u32::MAX { None } else { Some(dev_bound(v.major, v.minor, (v.patch + 1) as u32, None)) }
    }
}

pub open spec fn with_flag(atoms: Seq<AtomView>, flag: Option<StabilityFlag>) -> Seq<AtomView> {
    match flag {
        Some(f) => atoms.push(AtomView::Flag(f)),
        None => atoms,
    }
}

/// A version with numbers (not a branch name) and the count of numbers.
pub open spec fn numbered(s: Seq<char>) -> Option<(VersionView, nat)> {
    match parse_version_counted(s) {
        Some((v, c)) => if is_numbered(v) { Some((v, c)) } else { None },
        None => None,
    }
}

/// `lo <= v < hi` as two comparison atoms.
pub open spec fn range_atoms(lo: VersionView, hi: Option<VersionView>) -> Option<Seq<AtomView>> {
    match hi {
        Some(h) => Some(seq![AtomView::Cmp(CmpOp::Ge, devify(lo)), AtomView::Cmp(CmpOp::Lt, h)]),
        None => None,
    }
}

pub open spec fn is_plain_stable(v: VersionView) -> bool {
    v.stability == Stability::Stable && v.stability_n is None
}

/// A wildcard token: a partial version ending in `.*`, `.x` or `.X`.
pub open spec fn is_wildcard(b: Seq<char>) -> bool {
    b.len() >= 3 && b[b.len() - 2] == '.' && (b[b.len() - 1] == '*' || b[b.len() - 1] == 'x'
        || b[b.len() - 1] == 'X')
}

pub open spec fn starts2(b: Seq<char>, c0: char, c1: char) -> bool {
    b.len() >= 2 && b[0] == c0 && b[1] == c1
}

pub open spec fn starts1(b: Seq<char>, c0: char) -> bool {
    b.len() >= 1 && b[0] == c0
}

pub open spec fn compare_atom(op: CmpOp, rest: Seq<char>) -> Option<AtomView> {
    match numbered(rest) {
        Some((v, _)) => Some(
            if op == CmpOp::Ge || op == CmpOp::Lt {
                AtomView::Cmp(op, devify(v))
            } else {
                AtomView::Cmp(op, v)
            },
        ),
        None => None,
    }
}

/// Atoms of the part of a token before any `@flag`.
pub open spec fn parse_body(b: Seq<char>, flag: Option<StabilityFlag>) -> Option<Seq<AtomView>> {
    if b.len() == 0 {
        match flag {
            Some(f) => Some(seq![AtomView::Flag(f)]),
            None => None,
        }
    } else if b == seq!['*'] {
        Some(with_flag(Seq::empty(), flag))
    } else if starts1(b, '^') {
        match numbered(b.skip(1)) {
            Some((v, c)) => match range_atoms(v, caret_bound(v, c)) {
                Some(a) => Some(with_flag(a, flag)),
                None => None,
            },
            None => None,
        }
    } else if starts1(b, '~') {
        match numbered(b.skip(1)) {
            Some((v, c)) => match range_atoms(v, tilde_bound(v, c)) {
                Some(a) => Some(with_flag(a, flag)),
                None => None,
            },
            None => None,
        }
    } else if starts2(b, '>', '=') || starts2(b, '<', '=') || starts2(b, '!', '=') || starts2(b, '<', '>') {
        let op = if b[0] == '>' {
            CmpOp::Ge
        } else if b[0] == '<' && b[1] == '=' {
            CmpOp::Le
        } else {
            CmpOp::Ne
        };
        match compare_atom(op, b.skip(2)) {
            Some(a) => Some(with_flag(seq![a], flag)),
            None => None,
        }
    } else if starts1(b, '>') || starts1(b, '<') {
        let op = if b[0] == '>' { CmpOp::Gt } else { CmpOp::Lt };
        match compare_atom(op, b.skip(1)) {
            Some(a) => Some(with_flag(seq![a], flag)),
            None => None,
        }
    } else if starts2(b, '=', '=') || starts1(b, '=') {
        let rest = if starts2(b, '=', '=') { b.skip(2) } else { b.skip(1) };
        exact_atoms(rest, flag)
    } else if is_wildcard(b) {
        match numbered(b.take(b.len() - 2)) {
            Some((v, c)) => if c <= 3 && is_plain_stable(v) {
                match range_atoms(v, partial_bound(v, c)) {
                    Some(a) => Some(with_flag(a, flag)),
                    None => None,
                }
            } else {
                None
            },
            None => None,
        }
    } else {
        exact_atoms(b, flag)
    }
}

/// An exact version; a flag given to a suffix-less version sets its stability.
pub open spec fn exact_atoms(b: Seq<char>, flag: Option<StabilityFlag>) -> Option<Seq<AtomView>> {
    match parse_version_counted(b) {
        Some((v, _)) => match flag {
            Some(f) => if is_numbered(v) && is_plain_stable(v) {
                Some(seq![AtomView::Exact(VersionView { stability: flag_stability(f), ..v })])
            } else {
                Some(seq![AtomView::Exact(v), AtomView::Flag(f)])
            },
            None => Some(seq![AtomView::Exact(v)]),
        },
        None => None,
    }
}

/// Atoms of one token (`^1.2`, `>=1.0@dev`, `1.2.*`, ...).
pub open spec fn parse_token(t: Seq<char>) -> Option<Seq<AtomView>> {
    let a = at_index(t, 0);
    if a < t.len() {
        match flag_of(t.skip(a + 1)) {
            Some(f) => parse_body(t.take(a), Some(f)),
            None => None,
        }
    } else {
        parse_body(t, None)
    }
}

/// Concatenated atoms of `ts[i..]`, after those already in `acc`.
pub open spec fn parse_tokens_from(ts: Seq<Seq<char>>, i: int, acc: Seq<AtomView>) -> Option<Seq<AtomView>>
    decreases ts.len() - i,
{
    if i >= ts.len() || i < 0 {
        Some(acc)
    } else {
        match parse_token(ts[i]) {
            Some(a) => parse_tokens_from(ts, i + 1, acc + a),
            None => None,
        }
    }
}

/// Atoms of one branch: a hyphen range `A - B`, or a list of tokens.
pub open spec fn parse_branch(p: Seq<char>) -> Option<Seq<AtomView>> {
    let ts = and_pieces(p);
    if ts.len() == 0 {
        None
    } else if ts.len() == 3 && ts[1] == seq!['-'] {
        match (numbered(ts[0]), numbered(ts[2])) {
            (Some((lo, _)), Some((hi, c))) => if c < 3 {
                match partial_bound(hi, c) {
                    Some(h) => Some(seq![AtomView::Cmp(CmpOp::Ge, devify(lo)), AtomView::Cmp(CmpOp::Lt, h)]),
                    None => None,
                }
            } else {
                Some(seq![AtomView::Cmp(CmpOp::Ge, devify(lo)), AtomView::Cmp(CmpOp::Le, hi)])
            },
            _ => None,
        }
    } else {
        parse_tokens_from(ts, 0, Seq::empty())
    }
}

pub open spec fn parse_branches_from(ps: Seq<Seq<char>>, i: int, acc: Seq<Seq<AtomView>>) -> Option<Seq<Seq<AtomView>>>
    decreases ps.len() - i,
{
    if i >= ps.len() || i < 0 {
        Some(acc)
    } else {
        match parse_branch(ps[i]) {
            Some(b) => parse_branches_from(ps, i + 1, acc.push(b)),
            None => None,
        }
    }
}

/// The branches a constraint string reads as; `None` when it is not a
/// constraint.
pub open spec fn parse_constraint(s: Seq<char>) -> Option<Seq<Seq<AtomView>>> {
    let ps = or_pieces(s);
    if ps.len() == 0 {
        None
    } else {
        parse_branches_from(ps, 0, Seq::empty())
    }
}

// ---------------------------------------------------------------------------
// Parsing: executable
// ---------------------------------------------------------------------------

pub open spec fn pieces_view(v: Seq<Vec<char>>) -> Seq<Seq<char>> {
    v.map_values(|x: Vec<char>| x@)
}

fn split_pieces(s: &Vec<char>, or_sep: bool) -> (r: Vec<Vec<char>>)
    ensures
        pieces_view(r@) == (if or_sep { split_or_from(s@, 0, Seq::empty(), Seq::empty()) } else {
            split_and_from(s@, 0, Seq::empty(), Seq::empty())
        }),
{
    let mut acc: Vec<Vec<char>> = Vec::new();
    let mut cur: Vec<char> = Vec::new();
    let mut i: usize = 0;
    assert(pieces_view(acc@) =~= Seq::<Seq<char>>::empty());
    assert(cur@ =~= Seq::<char>::empty());
    let ghost target = if or_sep { split_or_from(s@, 0, Seq::empty(), Seq::empty()) } else {
        split_and_from(s@, 0, Seq::empty(), Seq::empty())
    };
    while i < s.len()
        invariant
            i <= s.len(),
            target == (if or_sep { split_or_from(s@, i as int, cur@, pieces_view(acc@)) } else {
                split_and_from(s@, i as int, cur@, pieces_view(acc@))
            }),
        decreases s.len() - i,
    {
        let c = s[i];
        let sep = if or_sep { c == '|' } else { c == ',' || c == ' ' || c == '\t' || c == '\n' || c == '\r' };
        if sep {
            if cur.len() > 0 {
                let ghost before = pieces_view(acc@);
                let ghost cv = cur@;
                acc.push(cur);
                assert(pieces_view(acc@) =~= before.push(cv));
            }
            cur = Vec::new();
            assert(cur@ =~= Seq::<char>::empty());
        } else {
            cur.push(c);
        }
        i += 1;
    }
    if cur.len() > 0 {
        let ghost before = pieces_view(acc@);
        let ghost cv = cur@;
        acc.push(cur);
        assert(pieces_view(acc@) =~= before.push(cv));
    }
    acc
}

fn lit_eq(v: &Vec<char>, lit: &str) -> (r: bool)
    ensures
        r == (v@ == lit@),
{
    let w = str_chars(lit);
    chars_eq(v, &w)
}

fn flag_of_exec(s: &Vec<char>) -> (r: Option<StabilityFlag>)
    ensures
        r == flag_of(s@),
{
    let l = lower_vec(s);
    proof {
        reveal_strlit("dev");
        reveal_strlit("alpha");
        reveal_strlit("beta");
        reveal_strlit("rc");
        reveal_strlit("stable");
    }
    assert("dev"@ =~= seq!['d', 'e', 'v']);
    assert("alpha"@ =~= seq!['a', 'l', 'p', 'h', 'a']);
    assert("beta"@ =~= seq!['b', 'e', 't', 'a']);
    assert("rc"@ =~= seq!['r', 'c']);
    assert("stable"@ =~= seq!['s', 't', 'a', 'b', 'l', 'e']);
    if lit_eq(&l, "dev") {
        Some(StabilityFlag::Dev)
    } else if lit_eq(&l, "alpha") {
        Some(StabilityFlag::Alpha)
    } else if lit_eq(&l, "beta") {
        Some(StabilityFlag::Beta)
    } else if lit_eq(&l, "rc") {
        Some(StabilityFlag::Rc)
    } else if lit_eq(&l, "stable") {
        Some(StabilityFlag::Stable)
    } else {
        None
    }
}

fn numbered_exec(s: &Vec<char>) -> (r: Option<(Version, usize)>)
    ensures
        match r {
            None => numbered(s@) is None,
            Some((v, c)) => numbered(s@) == Some((v@, c as nat)) && 1 <= c <= 4,
        },
{
    match parse_version_chars(s) {
        Some((v, c)) => {
            if v.dev_branch.is_none() {
                proof {
                    let start: int = if s@.len() > 0 && (s@[0] == 'v' || s@[0] == 'V') { 1 } else { 0 };
                    lemma_components_len(s@, start, Seq::empty());
                }
                Some((v, c))
            } else {
                None
            }
        },
        None => None,
    }
}

fn devify_exec(v: Version) -> (r: Version)
    ensures
        r@ == devify(v@),
{
    if v.stability == Stability::Stable && v.stability_n.is_none() {
        Version { stability: Stability::Dev, ..v }
    } else {
        v
    }
}

fn dev_bound_exec(major: u32, minor: u32, patch: u32, tweak: Option<u32>) -> (r: Version)
    ensures
        r@ == dev_bound(major, minor, patch, tweak),
{
    Version {
        major,
        minor,
        patch,
        tweak,
        stability: Stability::Dev,
        stability_n: None,
        dev_branch: None,
        is_v_prefixed: false,
    }
}

fn caret_bound_exec(v: &Version, c: usize) -> (r: Option<Version>)
    requires
        v.dev_branch is None,
    ensures
        match r {
            None => caret_bound(v@, c as nat) is None,
            Some(b) => caret_bound(v@, c as nat) == Some(b@),
        },
{
    if v.major > 0 || c == 1 {
        if v.major == u32::MAX { None } else { Some(dev_bound_exec(v.major + 1, 0, 0, None)) }
    } else if v.minor > 0 || c == 2 {
        if v.minor == u32::MAX { None } else { Some(dev_bound_exec(0, v.minor + 1, 0, None)) }
    } else if v.patch > 0 || c == 3 {
        if v.patch == u32::MAX { None } else { Some(dev_bound_exec(0, 0, v.patch + 1, None)) }
    } else {
        match v.tweak {
            Some(t) => if t == u32::MAX { None } else { Some(dev_bound_exec(0, 0, 0, Some(t + 1))) },
            None => None,
        }
    }
}

fn tilde_bound_exec(v: &Version, c: usize) -> (r: Option<Version>)
    ensures
        match r {
            None => tilde_bound(v@, c as nat) is None,
            Some(b) => tilde_bound(v@, c as nat) == Some(b@),
        },
{
    if c <= 2 {
        if v.major == u32::MAX { None } else { Some(dev_bound_exec(v.major + 1, 0, 0, None)) }
    } else if c == 3 {
        if v.minor == u32::MAX { None } else { Some(dev_bound_exec(v.major, v.minor + 1, 0, None)) }
    } else {
        if v.patch == u32::MAX { None } else { Some(dev_bound_exec(v.major, v.minor, v.patch + 1, None)) }
    }
}

fn partial_bound_exec(v: &Version, c: usize) -> (r: Option<Version>)
    ensures
        match r {
            None => partial_bound(v@, c as nat) is None,
            Some(b) => partial_bound(v@, c as nat) == Some(b@),
        },
{
    if c == 1 {
        if v.major == u32::MAX { None } else { Some(dev_bound_exec(v.major + 1, 0, 0, None)) }
    } else if c == 2 {
        if v.minor == u32::MAX { None } else { Some(dev_bound_exec(v.major, v.minor + 1, 0, None)) }
    } else {
        if v.patch == u32::MAX { None } else { Some(dev_bound_exec(v.major, v.minor, v.patch + 1, None)) }
    }
}

fn push_flag(atoms: &mut Vec<Atom>, flag: Option<StabilityFlag>)
    ensures
        final(atoms)@.map_values(|a: Atom| a@) == with_flag(old(atoms)@.map_values(|a: Atom| a@), flag),
{
    let ghost before = atoms@.map_values(|a: Atom| a@);
    match flag {
        Some(f) => {
            atoms.push(Atom::StabilityFlag(f));
            assert(atoms@.map_values(|a: Atom| a@) =~= before.push(AtomView::Flag(f)));
        },
        None => {},
    }
}

pub open spec fn atoms_view(v: Seq<Atom>) -> Seq<AtomView> {
    v.map_values(|a: Atom| a@)
}

fn range_atoms_exec(lo: Version, hi: Option<Version>, flag: Option<StabilityFlag>) -> (r: Option<Vec<Atom>>)
    ensures
        match r {
            None => range_atoms(lo@, opt_view(hi)) is None,
            Some(a) => range_atoms(lo@, opt_view(hi)) matches Some(x) && atoms_view(a@) == with_flag(x, flag),
        },
{
    match hi {
        Some(h) => {
            let ghost hv = h@;
            let mut a: Vec<Atom> = Vec::new();
            a.push(Atom::Cmp { op: CmpOp::Ge, version: devify_exec(lo) });
            a.push(Atom::Cmp { op: CmpOp::Lt, version: h });
            let ghost x = atoms_view(a@);
            assert(x =~= seq![AtomView::Cmp(CmpOp::Ge, devify(lo@)), AtomView::Cmp(CmpOp::Lt, hv)]);
            push_flag(&mut a, flag);
            Some(a)
        },
        None => None,
    }
}

pub open spec fn opt_view(o: Option<Version>) -> Option<VersionView> {
    match o {
        Some(v) => Some(v@),
        None => None,
    }
}

fn compare_atom_exec(op: CmpOp, rest: &Vec<char>) -> (r: Option<Atom>)
    ensures
        match r {
            None => compare_atom(op, rest@) is None,
            Some(a) => compare_atom(op, rest@) == Some(a@),
        },
{
    match numbered_exec(rest) {
        Some((v, _)) => {
            if op == CmpOp::Ge || op == CmpOp::Lt {
                Some(Atom::Cmp { op, version: devify_exec(v) })
            } else {
                Some(Atom::Cmp { op, version: v })
            }
        },
        None => None,
    }
}

fn exact_atoms_exec(b: &Vec<char>, flag: Option<StabilityFlag>) -> (r: Option<Vec<Atom>>)
    ensures
        match r {
            None => exact_atoms(b@, flag) is None,
            Some(a) => exact_atoms(b@, flag) == Some(atoms_view(a@)),
        },
{
    match parse_version_chars(b) {
        Some((v, _)) => {
            let mut a: Vec<Atom> = Vec::new();
            match flag {
                Some(f) => {
                    if v.dev_branch.is_none() && v.stability == Stability::Stable && v.stability_n.is_none() {
                        let st = flag_stability_exec(f);
                        a.push(Atom::Exact(Version { stability: st, ..v }));
                    } else {
                        a.push(Atom::Exact(v));
                        a.push(Atom::StabilityFlag(f));
                    }
                },
                None => {
                    a.push(Atom::Exact(v));
                },
            }
            assert(atoms_view(a@) =~= exact_atoms(b@, flag)->0);
            Some(a)
        },
        None => None,
    }
}

fn one_atom(a: Atom, flag: Option<StabilityFlag>) -> (r: Vec<Atom>)
    ensures
        atoms_view(r@) == with_flag(seq![a@], flag),
{
    let mut v: Vec<Atom> = Vec::new();
    let ghost av = a@;
    v.push(a);
    assert(atoms_view(v@) =~= seq![av]);
    push_flag(&mut v, flag);
    v
}

fn parse_body_exec(b: &Vec<char>, flag: Option<StabilityFlag>) -> (r: Option<Vec<Atom>>)
    ensures
        match r {
            None => parse_body(b@, flag) is None,
            Some(a) => parse_body(b@, flag) == Some(atoms_view(a@)),
        },
{
    let n = b.len();
    if n == 0 {
        match flag {
            Some(f) => {
                let mut a: Vec<Atom> = Vec::new();
                a.push(Atom::StabilityFlag(f));
                assert(atoms_view(a@) =~= seq![AtomView::Flag(f)]);
                return Some(a);
            },
            None => return None,
        }
    }
    if n == 1 && b[0] == '*' {
        assert(b@ =~= seq!['*']);
        let mut a: Vec<Atom> = Vec::new();
        assert(atoms_view(a@) =~= Seq::<AtomView>::empty());
        push_flag(&mut a, flag);
        return Some(a);
    }
    assert(!(b@ =~= seq!['*']) ==> b@ != seq!['*']);
    if b[0] == '^' || b[0] == '~' {
        let rest = sub_vec(b, 1, n);
        assert(rest@ =~= b@.skip(1));
        match numbered_exec(&rest) {
            Some((v, c)) => {
                let hi = if b[0] == '^' { caret_bound_exec(&v, c) } else { tilde_bound_exec(&v, c) };
                return range_atoms_exec(v, hi, flag);
            },
            None => return None,
        }
    }
    if n >= 2 && ((b[0] == '>' && b[1] == '=') || (b[0] == '<' && b[1] == '=') || (b[0] == '!' && b[1] == '=')
        || (b[0] == '<' && b[1] == '>')) {
        let op = if b[0] == '>' {
            CmpOp::Ge
        } else if b[0] == '<' && b[1] == '=' {
            CmpOp::Le
        } else {
            CmpOp::Ne
        };
        let rest = sub_vec(b, 2, n);
        assert(rest@ =~= b@.skip(2));
        match compare_atom_exec(op, &rest) {
            Some(a) => return Some(one_atom(a, flag)),
            None => return None,
        }
    }
    if b[0] == '>' || b[0] == '<' {
        let op = if b[0] == '>' { CmpOp::Gt } else { CmpOp::Lt };
        let rest = sub_vec(b, 1, n);
        assert(rest@ =~= b@.skip(1));
        match compare_atom_exec(op, &rest) {
            Some(a) => return Some(one_atom(a, flag)),
            None => return None,
        }
    }
    if b[0] == '=' {
        let skip: usize = if n >= 2 && b[1] == '=' { 2 } else { 1 };
        let rest = sub_vec(b, skip, n);
        assert(rest@ =~= b@.skip(skip as int));
        return exact_atoms_exec(&rest, flag);
    }
    if n >= 3 && b[n - 2] == '.' && (b[n - 1] == '*' || b[n - 1] == 'x' || b[n - 1] == 'X') {
        let head = sub_vec(b, 0, n - 2);
        assert(head@ =~= b@.take(n - 2));
        match numbered_exec(&head) {
            Some((v, c)) => {
                if c <= 3 && v.stability == Stability::Stable && v.stability_n.is_none() {
                    let hi = partial_bound_exec(&v, c);
                    return range_atoms_exec(v, hi, flag);
                } else {
                    return None;
                }
            },
            None => return None,
        }
    }
    exact_atoms_exec(b, flag)
}

fn at_index_exec(t: &Vec<char>) -> (r: usize)
    ensures
        r as int == at_index(t@, 0),
        r <= t.len(),
{
    let mut i: usize = 0;
    while i < t.len() && t[i] != '@'
        invariant
            i <= t.len(),
            at_index(t@, i as int) == at_index(t@, 0),
        decreases t.len() - i,
    {
        i += 1;
    }
    i
}

fn parse_token_exec(t: &Vec<char>) -> (r: Option<Vec<Atom>>)
    ensures
        match r {
            None => parse_token(t@) is None,
            Some(a) => parse_token(t@) == Some(atoms_view(a@)),
        },
{
    let a = at_index_exec(t);
    if a < t.len() {
        let fl = sub_vec(t, a + 1, t.len());
        assert(fl@ =~= t@.skip(a + 1));
        match flag_of_exec(&fl) {
            Some(f) => {
                let body = sub_vec(t, 0, a);
                assert(body@ =~= t@.take(a as int));
                parse_body_exec(&body, Some(f))
            },
            None => None,
        }
    } else {
        parse_body_exec(t, None)
    }
}

fn parse_branch_exec(p: &Vec<char>) -> (r: Option<Vec<Atom>>)
    ensures
        match r {
            None => parse_branch(p@) is None,
            Some(a) => parse_branch(p@) == Some(atoms_view(a@)),
        },
{
    let ts = split_pieces(p, false);
    let ghost tsv = pieces_view(ts@);
    assert(tsv == and_pieces(p@));
    if ts.len() == 0 {
        return None;
    }
    if ts.len() == 3 && ts[1].len() == 1 && ts[1][0] == '-' {
        assert(tsv[1] == ts@[1]@);
        assert(tsv[1] =~= seq!['-']);
        assert(tsv[0] == ts@[0]@ && tsv[2] == ts@[2]@);
        match (numbered_exec(&ts[0]), numbered_exec(&ts[2])) {
            (Some((lo, _)), Some((hi, c))) => {
                let mut a: Vec<Atom> = Vec::new();
                if c < 3 {
                    match partial_bound_exec(&hi, c) {
                        Some(h) => {
                            let ghost hv = h@;
                            a.push(Atom::Cmp { op: CmpOp::Ge, version: devify_exec(lo) });
                            a.push(Atom::Cmp { op: CmpOp::Lt, version: h });
                            assert(atoms_view(a@) =~= parse_branch(p@)->0);
                            return Some(a);
                        },
                        None => return None,
                    }
                } else {
                    let ghost hv = hi@;
                    a.push(Atom::Cmp { op: CmpOp::Ge, version: devify_exec(lo) });
                    a.push(Atom::Cmp { op: CmpOp::Le, version: hi });
                    assert(atoms_view(a@) =~= parse_branch(p@)->0);
                    return Some(a);
                }
            },
            _ => return None,
        }
    }
    proof {
        if tsv.len() == 3 && tsv[1] == seq!['-'] {
            assert(tsv[1] == ts@[1]@);
            assert(ts@[1]@.len() == 1 && ts@[1]@[0] == '-');
        }
    }
    let mut acc: Vec<Atom> = Vec::new();
    let mut i: usize = 0;
    while i < ts.len()
        invariant
            i <= ts.len(),
            tsv == pieces_view(ts@),
            tsv == and_pieces(p@),
            tsv.len() > 0,
            !(tsv.len() == 3 && tsv[1] == seq!['-']),
            parse_tokens_from(tsv, i as int, atoms_view(acc@)) == parse_tokens_from(tsv, 0, Seq::empty()),
        decreases ts.len() - i,
    {
        assert(tsv[i as int] == ts@[i as int]@);
        match parse_token_exec(&ts[i]) {
            Some(mut a) => {
                let ghost before = atoms_view(acc@);
                let ghost av = atoms_view(a@);
                acc.append(&mut a);
                assert(atoms_view(acc@) =~= before + av);
            },
            None => {
                return None;
            },
        }
        i += 1;
    }
    assert(atoms_view(Seq::<Atom>::empty()) =~= Seq::<AtomView>::empty());
    Some(acc)
}

pub open spec fn branches_view(v: Seq<Branch>) -> Seq<Seq<AtomView>> {
    v.map_values(|b: Branch| b@)
}

fn parse_constraint_chars(s: &Vec<char>) -> (r: Option<Vec<Branch>>)
    ensures
        match r {
            None => parse_constraint(s@) is None,
            Some(b) => parse_constraint(s@) == Some(branches_view(b@)),
        },
{
    let ps = split_pieces(s, true);
    let ghost psv = pieces_view(ps@);
    if ps.len() == 0 {
        return None;
    }
    let mut acc: Vec<Branch> = Vec::new();
    let mut i: usize = 0;
    assert(branches_view(acc@) =~= Seq::<Seq<AtomView>>::empty());
    while i < ps.len()
        invariant
            i <= ps.len(),
            psv == pieces_view(ps@),
            psv == or_pieces(s@),
            parse_branches_from(psv, i as int, branches_view(acc@)) == parse_branches_from(psv, 0, Seq::empty()),
        decreases ps.len() - i,
    {
        assert(psv[i as int] == ps@[i as int]@);
        match parse_branch_exec(&ps[i]) {
            Some(a) => {
                let ghost before = branches_view(acc@);
                let br = Branch { atoms: a };
                let ghost bv = br@;
                acc.push(br);
                assert(branches_view(acc@) =~= before.push(bv));
            },
            None => {
                return None;
            },
        }
        i += 1;
    }
    Some(acc)
}

impl Constraint {
    /// Parses a Composer constraint (`^1.2`, `~1.2.3`, `1.2.*`, `>=1.0 <2.0`,
    /// `1.0 - 2.0`, `1.2.3@dev`, `dev-main`, `A || B`, ...).
    pub fn parse(s: &str) -> (r: Result<Self, ConstraintError>)
        ensures
            match r {
                Ok(c) => parse_constraint(s@) == Some(c@),
                Err(ConstraintError::Invalid(m)) => parse_constraint(s@) is None && m@ == s@,
            },
    {
        let cs = str_chars(s);
        match parse_constraint_chars(&cs) {
            Some(b) => Ok(Constraint { branches: b }),
            None => Err(ConstraintError::Invalid(chars_to_string(cs.as_slice()))),
        }
    }

    /// Whether `version` satisfies this constraint.
    pub fn matches(&self, version: &Version) -> (r: bool)
        ensures
            r == constraint_matches(self@, version@),
    {
        let mut i: usize = 0;
        while i < self.branches.len()
            invariant
                i <= self.branches.len(),
                forall|k: int| 0 <= k < i ==> !branch_matches(#[trigger] self@[k], version@),
            decreases self.branches.len() - i,
        {
            if branch_matches_exec(&self.branches[i], version) {
                assert(branch_matches(self@[i as int], version@));
                return true;
            }
            i += 1;
        }
        false
    }
}

/// The constraint parser, as a unit.
pub struct ConstraintParser;

impl ConstraintParser {
    /// Same as `Constraint::parse`.
    pub fn parse(s: &str) -> (r: Result<Constraint, ConstraintError>)
        ensures
            match r {
                Ok(c) => parse_constraint(s@) == Some(c@),
                Err(ConstraintError::Invalid(m)) => parse_constraint(s@) is None && m@ == s@,
            },
    {
        Constraint::parse(s)
    }
}


// ---------------------------------------------------------------------------
// Alternatives
// ---------------------------------------------------------------------------

proof fn lemma_split_or_acc(s: Seq<char>, i: int, cur: Seq<char>, acc: Seq<Seq<char>>)
    requires
        0 <= i,
    ensures
        split_or_from(s, i, cur, acc) == acc + split_or_from(s, i, cur, Seq::empty()),
    decreases s.len() - i,
{
    if i >= s.len() {
        assert(push_piece(acc, cur) =~= acc + push_piece(Seq::empty(), cur));
    } else if is_or_sep(s[i]) {
        lemma_split_or_acc(s, i + 1, Seq::empty(), push_piece(acc, cur));
        lemma_split_or_acc(s, i + 1, Seq::empty(), push_piece(Seq::empty(), cur));
        assert(push_piece(acc, cur) =~= acc + push_piece(Seq::empty(), cur));
        assert(split_or_from(s, i, cur, acc) =~= acc + split_or_from(s, i, cur, Seq::empty()));
    } else {
        lemma_split_or_acc(s, i + 1, cur.push(s[i]), acc);
        lemma_split_or_acc(s, i + 1, cur.push(s[i]), Seq::empty());
    }
}

proof fn lemma_split_or_shift(p: Seq<char>, b: Seq<char>, j: int, cur: Seq<char>, acc: Seq<Seq<char>>)
    requires
        0 <= j,
    ensures
        split_or_from(p + b, p.len() + j, cur, acc) == split_or_from(b, j, cur, acc),
    decreases b.len() - j,
{
    if j < b.len() {
        assert((p + b)[p.len() + j] == b[j]);
        if is_or_sep(b[j]) {
            lemma_split_or_shift(p, b, j + 1, Seq::empty(), push_piece(acc, cur));
        } else {
            lemma_split_or_shift(p, b, j + 1, cur.push(b[j]), acc);
        }
    }
}

proof fn lemma_split_or_join(a: Seq<char>, b: Seq<char>, i: int, cur: Seq<char>, acc: Seq<Seq<char>>)
    requires
        0 <= i <= a.len(),
    ensures
        split_or_from(a + seq!['|'] + b, i, cur, acc) == split_or_from(a, i, cur, acc) + or_pieces(b),
    decreases a.len() - i,
{
    let s = a + seq!['|'] + b;
    if i == a.len() {
        assert(s[i] == '|');
        let p = a + seq!['|'];
        assert(s =~= p + b);
        lemma_split_or_shift(p, b, 0, Seq::empty(), push_piece(acc, cur));
        lemma_split_or_acc(b, 0, Seq::empty(), push_piece(acc, cur));
    } else {
        assert(s[i] == a[i]);
        if is_or_sep(a[i]) {
            lemma_split_or_join(a, b, i + 1, Seq::empty(), push_piece(acc, cur));
        } else {
            lemma_split_or_join(a, b, i + 1, cur.push(a[i]), acc);
        }
    }
}

/// `||` splits like the alternatives on either side of it.
proof fn lemma_or_pieces_join(x: Seq<char>, y: Seq<char>)
    ensures
        or_pieces(x + "||"@ + y) == or_pieces(x) + or_pieces(y),
{
    reveal_strlit("||");
    let t = seq!['|'] + y;
    assert(x + "||"@ + y =~= x + seq!['|'] + t);
    lemma_split_or_join(x, t, 0, Seq::empty(), Seq::empty());
    assert(t[0] == '|');
    lemma_split_or_shift(seq!['|'], y, 0, Seq::empty(), Seq::empty());
    assert(seq!['|'] + y =~= t);
    assert(push_piece(Seq::<Seq<char>>::empty(), Seq::<char>::empty()) =~= Seq::<Seq<char>>::empty());
}

proof fn lemma_branches_shift(p1: Seq<Seq<char>>, p2: Seq<Seq<char>>, j: int, acc: Seq<Seq<AtomView>>)
    requires
        0 <= j,
    ensures
        parse_branches_from(p1 + p2, p1.len() + j, acc) == parse_branches_from(p2, j, acc),
    decreases p2.len() - j,
{
    if j < p2.len() {
        assert((p1 + p2)[p1.len() + j] == p2[j]);
        match parse_branch(p2[j]) {
            Some(b) => lemma_branches_shift(p1, p2, j + 1, acc.push(b)),
            None => {},
        }
    }
}

proof fn lemma_branches_acc(ps: Seq<Seq<char>>, i: int, acc: Seq<Seq<AtomView>>)
    requires
        0 <= i,
    ensures
        parse_branches_from(ps, i, acc) == match parse_branches_from(ps, i, Seq::empty()) {
            Some(b) => Some(acc + b),
            None => None,
        },
    decreases ps.len() - i,
{
    if i >= ps.len() {
        assert(acc + Seq::<Seq<AtomView>>::empty() =~= acc);
    } else {
        match parse_branch(ps[i]) {
            Some(b) => {
                lemma_branches_acc(ps, i + 1, acc.push(b));
                lemma_branches_acc(ps, i + 1, seq![b]);
                assert(Seq::<Seq<AtomView>>::empty().push(b) =~= seq![b]);
                if parse_branches_from(ps, i + 1, Seq::empty()) is Some {
                    let r = parse_branches_from(ps, i + 1, Seq::empty())->Some_0;
                    assert(acc.push(b) + r =~= acc + (seq![b] + r));
                }
            },
            None => {},
        }
    }
}

proof fn lemma_branches_join(p1: Seq<Seq<char>>, p2: Seq<Seq<char>>, i: int, acc: Seq<Seq<AtomView>>)
    requires
        0 <= i <= p1.len(),
    ensures
        parse_branches_from(p1 + p2, i, acc) == match parse_branches_from(p1, i, acc) {
            Some(c) => parse_branches_from(p2, 0, c),
            None => None,
        },
    decreases p1.len() - i,
{
    if i == p1.len() {
        lemma_branches_shift(p1, p2, 0, acc);
    } else {
        assert((p1 + p2)[i] == p1[i]);
        match parse_branch(p1[i]) {
            Some(b) => lemma_branches_join(p1, p2, i + 1, acc.push(b)),
            None => {},
        }
    }
}

/// `x || y` reads as the branches of `x` followed by those of `y`, and a
/// version matches it exactly when it matches `x` or matches `y`.
pub proof fn law_or_constraint(x: Seq<char>, y: Seq<char>, v: VersionView)
    requires
        parse_constraint(x) is Some,
        parse_constraint(y) is Some,
    ensures
        parse_constraint(x + "||"@ + y) == Some(parse_constraint(x)->Some_0 + parse_constraint(y)->Some_0),
        constraint_matches(parse_constraint(x + "||"@ + y)->Some_0, v)
            == (constraint_matches(parse_constraint(x)->Some_0, v) || constraint_matches(parse_constraint(y)->Some_0, v)),
{
    let px = or_pieces(x);
    let py = or_pieces(y);
    lemma_or_pieces_join(x, y);
    lemma_branches_join(px, py, 0, Seq::empty());
    let bx = parse_constraint(x)->Some_0;
    let by = parse_constraint(y)->Some_0;
    lemma_branches_acc(py, 0, bx);
    let c = bx + by;
    assert(parse_constraint(x + "||"@ + y) == Some(c));
    if constraint_matches(c, v) {
        let i = choose|i: int| 0 <= i < c.len() && branch_matches(#[trigger] c[i], v);
        if i < bx.len() {
            assert(c[i] == bx[i]);
        } else {
            assert(c[i] == by[i - bx.len()]);
        }
    }
    if constraint_matches(bx, v) {
        let i = choose|i: int| 0 <= i < bx.len() && branch_matches(#[trigger] bx[i], v);
        assert(c[i] == bx[i]);
    }
    if constraint_matches(by, v) {
        let i = choose|i: int| 0 <= i < by.len() && branch_matches(#[trigger] by[i], v);
        assert(c[bx.len() + i] == by[i]);
    }
}

// ---------------------------------------------------------------------------
// Conjunctions
// ---------------------------------------------------------------------------

/// `s` holds no separator of alternatives or of conjunctions.
pub open spec fn plain_token(s: Seq<char>) -> bool {
    s.len() > 0 && forall|i: int| 0 <= i < s.len() ==> !is_and_sep(#[trigger] s[i]) && !is_or_sep(s[i])
}

proof fn lemma_split_or_plain(s: Seq<char>, i: int)
    requires
        0 <= i <= s.len(),
        forall|k: int| 0 <= k < s.len() ==> !is_or_sep(#[trigger] s[k]),
        s.len() > 0,
    ensures
        split_or_from(s, i, s.take(i), Seq::empty()) == seq![s],
    decreases s.len() - i,
{
    if i == s.len() {
        assert(s.take(i) =~= s);
        assert(push_piece(Seq::empty(), s) =~= seq![s]);
    } else {
        assert(s.take(i).push(s[i]) =~= s.take(i + 1));
        lemma_split_or_plain(s, i + 1);
    }
}

proof fn lemma_split_and_second(x: Seq<char>, y: Seq<char>, j: int)
    requires
        0 <= j <= y.len(),
        plain_token(x),
        plain_token(y),
    ensures
        split_and_from(x + seq![','] + y, x.len() + 1 + j, y.take(j), seq![x]) == seq![x, y],
    decreases y.len() - j,
{
    let s = x + seq![','] + y;
    if j == y.len() {
        assert(y.take(j) =~= y);
        assert(seq![x].push(y) =~= seq![x, y]);
    } else {
        assert(s[x.len() + 1 + j] == y[j]);
        assert(!is_and_sep(y[j]));
        assert(y.take(j).push(y[j]) =~= y.take(j + 1));
        lemma_split_and_second(x, y, j + 1);
    }
}

proof fn lemma_split_and_first(x: Seq<char>, y: Seq<char>, i: int)
    requires
        0 <= i <= x.len(),
        plain_token(x),
        plain_token(y),
    ensures
        split_and_from(x + seq![','] + y, i, x.take(i), Seq::empty()) == seq![x, y],
    decreases x.len() - i,
{
    let s = x + seq![','] + y;
    if i == x.len() {
        assert(s[i] == ',');
        assert(x.take(i) =~= x);
        assert(push_piece(Seq::empty(), x) =~= seq![x]);
        assert(y.take(0) =~= Seq::<char>::empty());
        lemma_split_and_second(x, y, 0);
    } else {
        assert(s[i] == x[i]);
        assert(!is_and_sep(x[i]));
        assert(x.take(i).push(x[i]) =~= x.take(i + 1));
        lemma_split_and_first(x, y, i + 1);
    }
}

/// What `x,y` reads as, for two plain tokens: one branch holding the atoms
/// of `x` and then those of `y`.
proof fn lemma_pair_parse(x: Seq<char>, y: Seq<char>)
    requires
        plain_token(x),
        plain_token(y),
    ensures
        parse_constraint(x + ","@ + y) == match (parse_token(x), parse_token(y)) {
            (Some(ax), Some(ay)) => Some(seq![ax + ay]),
            _ => None::<Seq<Seq<AtomView>>>,
        },
{
    reveal_strlit(",");
    let s = x + ","@ + y;
    assert(s =~= x + seq![','] + y);
    assert forall|k: int| 0 <= k < s.len() implies !is_or_sep(#[trigger] s[k]) by {
        if k < x.len() {
            assert(s[k] == x[k]);
        } else if k > x.len() {
            assert(s[k] == y[k - x.len() - 1]);
        }
    }
    assert(s.take(0) =~= Seq::<char>::empty());
    lemma_split_or_plain(s, 0);
    assert(x.take(0) =~= Seq::<char>::empty());
    lemma_split_and_first(x, y, 0);
    let ts = seq![x, y];
    assert(and_pieces(s) == ts);
    assert(ts[0] == x && ts[1] == y);
    assert(or_pieces(s) == seq![s]);
    assert(seq![s][0] == s);
    match parse_token(x) {
        Some(ax) => {
            assert(Seq::<AtomView>::empty() + ax =~= ax);
            assert(parse_tokens_from(ts, 0, Seq::empty()) == parse_tokens_from(ts, 1, ax));
            match parse_token(y) {
                Some(ay) => {
                    assert(parse_tokens_from(ts, 1, ax) == parse_tokens_from(ts, 2, ax + ay));
                    assert(parse_branch(s) == Some(ax + ay));
                    assert(Seq::<Seq<AtomView>>::empty().push(ax + ay) =~= seq![ax + ay]);
                    assert(parse_branches_from(seq![s], 0, Seq::empty()) == parse_branches_from(seq![s], 1, seq![ax + ay]));
                },
                None => {
                    assert(parse_tokens_from(ts, 1, ax) is None);
                    assert(parse_branch(s) is None);
                },
            }
        },
        None => {
            assert(parse_tokens_from(ts, 0, Seq::empty()) is None);
            assert(parse_branch(s) is None);
        },
    }
}

/// The order of two comma-separated plain tokens does not matter: `x,y`
/// reads as a constraint exactly when `y,x` does, and a version matches
/// one exactly when it matches the other.
pub proof fn law_and_order(x: Seq<char>, y: Seq<char>, v: VersionView)
    requires
        plain_token(x),
        plain_token(y),
    ensures
        (parse_constraint(x + ","@ + y) is Some) == (parse_constraint(y + ","@ + x) is Some),
        parse_constraint(x + ","@ + y) is Some ==> constraint_matches(parse_constraint(x + ","@ + y)->Some_0, v)
            == constraint_matches(parse_constraint(y + ","@ + x)->Some_0, v),
{
    lemma_pair_parse(x, y);
    lemma_pair_parse(y, x);
    if let (Some(ax), Some(ay)) = (parse_token(x), parse_token(y)) {
        let b1 = ax + ay;
        let b2 = ay + ax;
        assert(branch_matches(b1, v) == branch_matches(b2, v)) by {
            if branch_matches(b1, v) {
                assert forall|i: int| 0 <= i < b2.len() implies atom_matches(#[trigger] b2[i], v) by {
                    if i < ay.len() {
                        assert(b2[i] == ay[i]);
                        assert(b1[ax.len() + i] == ay[i]);
                    } else {
                        assert(b2[i] == ax[i - ay.len()]);
                        assert(b1[i - ay.len()] == ax[i - ay.len()]);
                    }
                }
            }
            if branch_matches(b2, v) {
                assert forall|i: int| 0 <= i < b1.len() implies atom_matches(#[trigger] b1[i], v) by {
                    if i < ax.len() {
                        assert(b1[i] == ax[i]);
                        assert(b2[ay.len() + i] == ax[i]);
                    } else {
                        assert(b1[i] == ay[i - ax.len()]);
                        assert(b2[i - ax.len()] == ay[i - ax.len()]);
                    }
                }
            }
        }
        assert(constraint_matches(seq![b1], v) == branch_matches(b1, v)) by {
            if branch_matches(b1, v) {
                assert(seq![b1][0] == b1);
            }
        }
        assert(constraint_matches(seq![b2], v) == branch_matches(b2, v)) by {
            if branch_matches(b2, v) {
                assert(seq![b2][0] == b2);
            }
        }
    }
}

// ---------------------------------------------------------------------------
// Hyphen ranges
// ---------------------------------------------------------------------------

/// Reading through a stretch without separators adds it to the current piece.
proof fn lemma_split_and_run(s: Seq<char>, i: int, j: int, cur: Seq<char>, acc: Seq<Seq<char>>)
    requires
        0 <= i <= j <= s.len(),
        forall|k: int| i <= k < j ==> !is_and_sep(#[trigger] s[k]),
    ensures
        split_and_from(s, i, cur, acc) == split_and_from(s, j, cur + s.subrange(i, j), acc),
    decreases j - i,
{
    if i == j {
        assert(cur + s.subrange(i, j) =~= cur);
    } else {
        lemma_split_and_run(s, i + 1, j, cur.push(s[i]), acc);
        assert(cur.push(s[i]) + s.subrange(i + 1, j) =~= cur + s.subrange(i, j));
    }
}

/// `A - B` splits into the three pieces `A`, `-` and `B`.
proof fn lemma_split_hyphen(a: Seq<char>, b: Seq<char>)
    requires
        plain_token(a),
        plain_token(b),
    ensures
        and_pieces(a + seq![' ', '-', ' '] + b) == seq![a, seq!['-'], b],
        or_pieces(a + seq![' ', '-', ' '] + b) == seq![a + seq![' ', '-', ' '] + b],
{
    let s = a + seq![' ', '-', ' '] + b;
    let la = a.len() as int;
    assert forall|k: int| 0 <= k < la implies !is_and_sep(#[trigger] s[k]) by {
        assert(s[k] == a[k]);
    }
    lemma_split_and_run(s, 0, la, Seq::empty(), Seq::empty());
    assert(Seq::<char>::empty() + s.subrange(0, la) =~= a);
    assert(s[la] == ' ' && s[la + 1] == '-' && s[la + 2] == ' ');
    assert(push_piece(Seq::empty(), a) =~= seq![a]);
    assert(split_and_from(s, la, a, Seq::empty()) == split_and_from(s, la + 1, Seq::empty(), seq![a]));
    assert(Seq::<char>::empty().push('-') =~= seq!['-']);
    assert(split_and_from(s, la + 1, Seq::empty(), seq![a]) == split_and_from(s, la + 2, seq!['-'], seq![a]));
    assert(push_piece(seq![a], seq!['-']) =~= seq![a, seq!['-']]);
    assert(split_and_from(s, la + 2, seq!['-'], seq![a]) == split_and_from(s, la + 3, Seq::empty(), seq![a, seq!['-']]));
    assert forall|k: int| la + 3 <= k < s.len() implies !is_and_sep(#[trigger] s[k]) by {
        assert(s[k] == b[k - la - 3]);
    }
    lemma_split_and_run(s, la + 3, s.len() as int, Seq::empty(), seq![a, seq!['-']]);
    assert(Seq::<char>::empty() + s.subrange(la + 3, s.len() as int) =~= b);
    assert(push_piece(seq![a, seq!['-']], b) =~= seq![a, seq!['-'], b]);
    assert forall|k: int| 0 <= k < s.len() implies !is_or_sep(#[trigger] s[k]) by {
        if k < la {
            assert(s[k] == a[k]);
        } else if k >= la + 3 {
            assert(s[k] == b[k - la - 3]);
        }
    }
    assert(s.take(0) =~= Seq::<char>::empty());
    lemma_split_or_plain(s, 0);
}

/// A hyphen range `A - B` whose upper end `B` spells out three or more
/// numbers reads as a constraint, is inclusive at that end (`B` itself
/// matches when `A` is not above it), and lets no version above `B`
/// through.
pub proof fn law_hyphen_range_inclusive(a: Seq<char>, b: Seq<char>, v: VersionView)
    requires
        plain_token(a),
        plain_token(b),
        numbered(a) is Some,
        numbered(b) is Some,
        numbered(b)->Some_0.1 >= 3,
    ensures
        parse_constraint(a + " - "@ + b) is Some,
        !version_lt(numbered(b)->Some_0.0, numbered(a)->Some_0.0) ==> constraint_matches(
            parse_constraint(a + " - "@ + b)->Some_0,
            numbered(b)->Some_0.0,
        ),
        constraint_matches(parse_constraint(a + " - "@ + b)->Some_0, v) ==> !version_lt(numbered(b)->Some_0.0, v),
{
    reveal_strlit(" - ");
    let s = a + " - "@ + b;
    assert(s =~= a + seq![' ', '-', ' '] + b);
    lemma_split_hyphen(a, b);
    let lo = numbered(a)->Some_0.0;
    let hi = numbered(b)->Some_0.0;
    let br = seq![AtomView::Cmp(CmpOp::Ge, devify(lo)), AtomView::Cmp(CmpOp::Le, hi)];
    let ts = and_pieces(s);
    assert(ts.len() == 3 && ts[0] == a && ts[1] == seq!['-'] && ts[2] == b);
    assert(parse_branch(s) == Some(br));
    assert(or_pieces(s)[0] == s);
    assert(parse_branches_from(seq![s], 0, Seq::empty()) == parse_branches_from(seq![s], 1, Seq::<Seq<AtomView>>::empty().push(br)));
    assert(Seq::<Seq<AtomView>>::empty().push(br) =~= seq![br]);
    assert(parse_constraint(s) == Some(seq![br]));
    if !version_lt(hi, lo) {
        assert(atom_matches(br[0], hi));
        assert(atom_matches(br[1], hi));
        assert(branch_matches(br, hi));
        assert(seq![br][0] == br);
    }
    if constraint_matches(seq![br], v) {
        let i = choose|i: int| 0 <= i < 1 && branch_matches(#[trigger] seq![br][i], v);
        assert(seq![br][i] == br);
        assert(atom_matches(br[1], v));
    }
}

// ---------------------------------------------------------------------------
// Single-token constraints
// ---------------------------------------------------------------------------

/// A release: a numbered version without a pre-release suffix.
pub open spec fn plain_release(w: VersionView) -> bool {
    w.dev_branch is None && w.stability == Stability::Stable && w.stability_n is None
}

/// `t` has no `@` (no stability flag).
pub open spec fn no_flag(t: Seq<char>) -> bool {
    forall|i: int| 0 <= i < t.len() ==> t[i] != '@'
}

/// `b` starts with a digit.
pub open spec fn starts_with_digit(b: Seq<char>) -> bool {
    b.len() > 0 && '0' <= b[0] <= '9'
}

proof fn lemma_at_index_none(t: Seq<char>, i: int)
    requires
        0 <= i <= t.len(),
        no_flag(t),
    ensures
        at_index(t, i) == t.len(),
    decreases t.len() - i,
{
    if i < t.len() {
        lemma_at_index_none(t, i + 1);
    }
}

proof fn lemma_split_and_plain(s: Seq<char>, i: int)
    requires
        0 <= i <= s.len(),
        plain_token(s),
    ensures
        split_and_from(s, i, s.take(i), Seq::empty()) == seq![s],
    decreases s.len() - i,
{
    if i == s.len() {
        assert(s.take(i) =~= s);
        assert(push_piece(Seq::empty(), s) =~= seq![s]);
    } else {
        assert(!is_and_sep(s[i]));
        assert(s.take(i).push(s[i]) =~= s.take(i + 1));
        lemma_split_and_plain(s, i + 1);
    }
}

/// A single token without separators or flag reads as one branch: the
/// atoms of its body.
proof fn lemma_single_token(t: Seq<char>)
    requires
        plain_token(t),
        no_flag(t),
    ensures
        parse_constraint(t) == (match parse_body(t, None) {
            Some(a) => Some(seq![a]),
            None => None::<Seq<Seq<AtomView>>>,
        }),
{
    assert(t.take(0) =~= Seq::<char>::empty());
    lemma_split_or_plain(t, 0);
    lemma_split_and_plain(t, 0);
    lemma_at_index_none(t, 0);
    let ts = seq![t];
    assert(and_pieces(t) == ts);
    assert(ts[0] == t);
    assert(parse_token(t) == parse_body(t, None));
    assert(or_pieces(t)[0] == t);
    match parse_body(t, None) {
        Some(a) => {
            assert(Seq::<AtomView>::empty() + a =~= a);
            assert(parse_tokens_from(ts, 0, Seq::empty()) == parse_tokens_from(ts, 1, a));
            assert(parse_branch(t) == Some(a));
            assert(Seq::<Seq<AtomView>>::empty().push(a) =~= seq![a]);
            assert(parse_branches_from(seq![t], 0, Seq::empty()) == parse_branches_from(seq![t], 1, seq![a]));
        },
        None => {
            assert(parse_tokens_from(ts, 0, Seq::empty()) is None);
        },
    }
}

proof fn lemma_one_branch(a: Seq<AtomView>, w: VersionView)
    ensures
        constraint_matches(seq![a], w) == branch_matches(a, w),
{
    if branch_matches(a, w) {
        assert(seq![a][0] == a);
    }
    if constraint_matches(seq![a], w) {
        let i = choose|i: int| 0 <= i < 1 && branch_matches(#[trigger] seq![a][i], w);
        assert(seq![a][i] == a);
    }
}

proof fn lemma_branch2(x: AtomView, y: AtomView, w: VersionView)
    ensures
        branch_matches(seq![x, y], w) == (atom_matches(x, w) && atom_matches(y, w)),
{
    let b = seq![x, y];
    if atom_matches(x, w) && atom_matches(y, w) {
        assert forall|i: int| 0 <= i < b.len() implies atom_matches(#[trigger] b[i], w) by {
            if i == 0 {
                assert(b[0] == x);
            } else {
                assert(b[1] == y);
            }
        }
    }
    if branch_matches(b, w) {
        assert(atom_matches(b[0], w));
        assert(atom_matches(b[1], w));
    }
}

proof fn lemma_branch1(x: AtomView, w: VersionView)
    ensures
        branch_matches(seq![x], w) == atom_matches(x, w),
{
    if branch_matches(seq![x], w) {
        assert(atom_matches(seq![x][0], w));
    }
}

/// `t` followed by `b`, with `b` a numbered version starting with a digit:
/// the facts the parser looks at.
proof fn lemma_prefixed(p: Seq<char>, b: Seq<char>)
    requires
        plain_token(b),
        no_flag(b),
        starts_with_digit(b),
        forall|i: int| 0 <= i < p.len() ==> !is_and_sep(#[trigger] p[i]) && !is_or_sep(p[i]) && p[i] != '@',
    ensures
        plain_token(p + b),
        no_flag(p + b),
        (p + b).skip(p.len() as int) == b,
        (p + b)[p.len() as int] == b[0],
        forall|i: int| 0 <= i < p.len() ==> #[trigger] (p + b)[i] == p[i],
{
    let t = p + b;
    assert forall|i: int| 0 <= i < t.len() implies !is_and_sep(#[trigger] t[i]) && !is_or_sep(t[i]) && t[i] != '@' by {
        if i < p.len() {
            assert(t[i] == p[i]);
        } else {
            assert(t[i] == b[i - p.len()]);
        }
    }
    assert(t.skip(p.len() as int) =~= b);
}

proof fn lemma_cmp_ge(b: Seq<char>, w: VersionView)
    requires
        plain_token(b),
        no_flag(b),
        starts_with_digit(b),
        '0' <= b.last() <= '9',
        numbered(b) is Some,
        plain_release(numbered(b)->Some_0.0),
        plain_release(w),
    ensures
        parse_constraint(seq!['>', '='] + b) is Some,
        constraint_matches(parse_constraint(seq!['>', '='] + b)->Some_0, w) == ({ let v = numbered(b)->Some_0.0; !numbers_before(numbers_of(w), numbers_of(v)) }),
{
    let v = numbered(b)->Some_0.0;
    let t = seq!['>', '='] + b;
    lemma_prefixed(seq!['>', '='], b);
    lemma_single_token(t);
    assert(parse_body(t, None) == Some(seq![AtomView::Cmp(CmpOp::Ge, devify(v))]));
    lemma_one_branch(seq![AtomView::Cmp(CmpOp::Ge, devify(v))], w);
    lemma_branch1(AtomView::Cmp(CmpOp::Ge, devify(v)), w);
}

proof fn lemma_cmp_gt(b: Seq<char>, w: VersionView)
    requires
        plain_token(b),
        no_flag(b),
        starts_with_digit(b),
        '0' <= b.last() <= '9',
        numbered(b) is Some,
        plain_release(numbered(b)->Some_0.0),
        plain_release(w),
    ensures
        parse_constraint(seq!['>'] + b) is Some,
        constraint_matches(parse_constraint(seq!['>'] + b)->Some_0, w) == ({ let v = numbered(b)->Some_0.0; numbers_before(numbers_of(v), numbers_of(w)) }),
{
    let v = numbered(b)->Some_0.0;
    let t = seq!['>'] + b;
    lemma_prefixed(seq!['>'], b);
    lemma_single_token(t);
    assert(parse_body(t, None) == Some(seq![AtomView::Cmp(CmpOp::Gt, v)]));
    lemma_one_branch(seq![AtomView::Cmp(CmpOp::Gt, v)], w);
    lemma_branch1(AtomView::Cmp(CmpOp::Gt, v), w);
}

proof fn lemma_cmp_le(b: Seq<char>, w: VersionView)
    requires
        plain_token(b),
        no_flag(b),
        starts_with_digit(b),
        '0' <= b.last() <= '9',
        numbered(b) is Some,
        plain_release(numbered(b)->Some_0.0),
        plain_release(w),
    ensures
        parse_constraint(seq!['<', '='] + b) is Some,
        constraint_matches(parse_constraint(seq!['<', '='] + b)->Some_0, w) == ({ let v = numbered(b)->Some_0.0; !numbers_before(numbers_of(v), numbers_of(w)) }),
{
    let v = numbered(b)->Some_0.0;
    let t = seq!['<', '='] + b;
    lemma_prefixed(seq!['<', '='], b);
    lemma_single_token(t);
    assert(parse_body(t, None) == Some(seq![AtomView::Cmp(CmpOp::Le, v)]));
    lemma_one_branch(seq![AtomView::Cmp(CmpOp::Le, v)], w);
    lemma_branch1(AtomView::Cmp(CmpOp::Le, v), w);
}

proof fn lemma_cmp_lt(b: Seq<char>, w: VersionView)
    requires
        plain_token(b),
        no_flag(b),
        starts_with_digit(b),
        '0' <= b.last() <= '9',
        numbered(b) is Some,
        plain_release(numbered(b)->Some_0.0),
        plain_release(w),
    ensures
        parse_constraint(seq!['<'] + b) is Some,
        constraint_matches(parse_constraint(seq!['<'] + b)->Some_0, w) == ({ let v = numbered(b)->Some_0.0; numbers_before(numbers_of(w), numbers_of(v)) }),
{
    let v = numbered(b)->Some_0.0;
    let t = seq!['<'] + b;
    lemma_prefixed(seq!['<'], b);
    lemma_single_token(t);
    assert(parse_body(t, None) == Some(seq![AtomView::Cmp(CmpOp::Lt, devify(v))]));
    lemma_one_branch(seq![AtomView::Cmp(CmpOp::Lt, devify(v))], w);
    lemma_branch1(AtomView::Cmp(CmpOp::Lt, devify(v)), w);
}

proof fn lemma_cmp_ne(b: Seq<char>, w: VersionView)
    requires
        plain_token(b),
        no_flag(b),
        starts_with_digit(b),
        '0' <= b.last() <= '9',
        numbered(b) is Some,
        plain_release(numbered(b)->Some_0.0),
        plain_release(w),
    ensures
        parse_constraint(seq!['!', '='] + b) is Some,
        constraint_matches(parse_constraint(seq!['!', '='] + b)->Some_0, w) == ({ let v = numbered(b)->Some_0.0; (numbers_of(w) != numbers_of(v)) }),
{
    let v = numbered(b)->Some_0.0;
    let t = seq!['!', '='] + b;
    lemma_prefixed(seq!['!', '='], b);
    lemma_single_token(t);
    assert(parse_body(t, None) == Some(seq![AtomView::Cmp(CmpOp::Ne, v)]));
    lemma_one_branch(seq![AtomView::Cmp(CmpOp::Ne, v)], w);
    lemma_branch1(AtomView::Cmp(CmpOp::Ne, v), w);
}

proof fn lemma_cmp_exact(b: Seq<char>, w: VersionView)
    requires
        plain_token(b),
        no_flag(b),
        starts_with_digit(b),
        '0' <= b.last() <= '9',
        numbered(b) is Some,
        plain_release(numbered(b)->Some_0.0),
        plain_release(w),
    ensures
        parse_constraint(b) is Some,
        constraint_matches(parse_constraint(b)->Some_0, w) == (numbers_of(w) == numbers_of(numbered(b)->Some_0.0)),
        parse_constraint(seq!['='] + b) is Some,
        constraint_matches(parse_constraint(seq!['='] + b)->Some_0, w) == (numbers_of(w) == numbers_of(numbered(b)->Some_0.0)),
{
    let v = numbered(b)->Some_0.0;
    assert(parse_version_counted(b) == Some((v, numbered(b)->Some_0.1)));
    lemma_single_token(b);
    assert(!is_wildcard(b));
    assert(parse_body(b, None) == Some(seq![AtomView::Exact(v)]));
    lemma_one_branch(seq![AtomView::Exact(v)], w);
    lemma_branch1(AtomView::Exact(v), w);
    let t = seq!['='] + b;
    lemma_prefixed(seq!['='], b);
    lemma_single_token(t);
    assert(!starts2(t, '=', '='));
    assert(parse_body(t, None) == Some(seq![AtomView::Exact(v)]));
}

/// The comparison constraints on a release bound `v` (written `b`), for any
/// release `w`: `>=b` admits exactly the releases not below `v`, `>b` those
/// above it, `<=b` those not above it, `<b` those below it, `!=b` all but
/// `v`'s numbers, and `b` (or `=b`) exactly `v`'s numbers.
pub proof fn law_comparison_constraints(b: Seq<char>, w: VersionView)
    requires
        plain_token(b),
        no_flag(b),
        starts_with_digit(b),
        '0' <= b.last() <= '9',
        numbered(b) is Some,
        plain_release(numbered(b)->Some_0.0),
        plain_release(w),
    ensures
        ({
            let v = numbered(b)->Some_0.0;
            &&& parse_constraint(seq!['>', '='] + b) is Some
            &&& constraint_matches(parse_constraint(seq!['>', '='] + b)->Some_0, w) == !numbers_before(numbers_of(w), numbers_of(v))
            &&& parse_constraint(seq!['>'] + b) is Some
            &&& constraint_matches(parse_constraint(seq!['>'] + b)->Some_0, w) == numbers_before(numbers_of(v), numbers_of(w))
            &&& parse_constraint(seq!['<', '='] + b) is Some
            &&& constraint_matches(parse_constraint(seq!['<', '='] + b)->Some_0, w) == !numbers_before(numbers_of(v), numbers_of(w))
            &&& parse_constraint(seq!['<'] + b) is Some
            &&& constraint_matches(parse_constraint(seq!['<'] + b)->Some_0, w) == numbers_before(numbers_of(w), numbers_of(v))
            &&& parse_constraint(seq!['!', '='] + b) is Some
            &&& constraint_matches(parse_constraint(seq!['!', '='] + b)->Some_0, w) == (numbers_of(w) != numbers_of(v))
            &&& parse_constraint(b) is Some
            &&& constraint_matches(parse_constraint(b)->Some_0, w) == (numbers_of(w) == numbers_of(v))
            &&& parse_constraint(seq!['='] + b) is Some
            &&& constraint_matches(parse_constraint(seq!['='] + b)->Some_0, w) == (numbers_of(w) == numbers_of(v))
        }),
{
    lemma_cmp_ge(b, w);
    lemma_cmp_gt(b, w);
    lemma_cmp_le(b, w);
    lemma_cmp_lt(b, w);
    lemma_cmp_ne(b, w);
    lemma_cmp_exact(b, w);
}

/// A release `w` is in `[v, h)` (`v` counted from its `-dev`, `h` a `-dev`
/// bound) exactly when its numbers are.
proof fn lemma_release_range(v: VersionView, h: VersionView, w: VersionView)
    requires
        plain_release(v),
        plain_release(w),
        h.dev_branch is None,
        h.stability == Stability::Dev,
        h.stability_n is None,
    ensures
        branch_matches(seq![AtomView::Cmp(CmpOp::Ge, devify(v)), AtomView::Cmp(CmpOp::Lt, h)], w) == (!numbers_before(
            numbers_of(w),
            numbers_of(v),
        ) && numbers_before(numbers_of(w), numbers_of(h))),
{
    lemma_branch2(AtomView::Cmp(CmpOp::Ge, devify(v)), AtomView::Cmp(CmpOp::Lt, h), w);
}

/// `^b` for a release bound `v` of which `b` writes `c` numbers, on
/// releases `w`: with a non-zero major (or the major alone written), the
/// releases of that major not below `v`; with major 0 and a non-zero minor
/// (or two numbers written), the releases of `0.minor` not below `v`; with
/// `0.0.p`, p non-zero (or three numbers written), the releases of `0.0.p`
/// not below `v`.
pub proof fn law_caret_constraint(b: Seq<char>, w: VersionView)
    requires
        plain_token(b),
        no_flag(b),
        starts_with_digit(b),
        numbered(b) is Some,
        plain_release(numbered(b)->Some_0.0),
        plain_release(w),
    ensures
        ({
            let v = numbered(b)->Some_0.0;
            let c = numbered(b)->Some_0.1;
            let t = seq!['^'] + b;
            &&& (v.major > 0 || c == 1) && v.major < u32::MAX ==> parse_constraint(t) is Some
                && constraint_matches(parse_constraint(t)->Some_0, w) == (w.major == v.major && !numbers_before(numbers_of(w), numbers_of(v)))
            &&& v.major == 0 && c != 1 && (v.minor > 0 || c == 2) && v.minor < u32::MAX ==> parse_constraint(t) is Some
                && constraint_matches(parse_constraint(t)->Some_0, w) == (w.major == 0 && w.minor == v.minor
                && !numbers_before(numbers_of(w), numbers_of(v)))
            &&& v.major == 0 && v.minor == 0 && c != 1 && c != 2 && (v.patch > 0 || c == 3) && v.patch < u32::MAX
                ==> parse_constraint(t) is Some && constraint_matches(parse_constraint(t)->Some_0, w) == (w.major == 0
                && w.minor == 0 && w.patch == v.patch && !numbers_before(numbers_of(w), numbers_of(v)))
        }),
{
    let v = numbered(b)->Some_0.0;
    let c = numbered(b)->Some_0.1;
    let t = seq!['^'] + b;
    lemma_prefixed(seq!['^'], b);
    lemma_single_token(t);
    match caret_bound(v, c) {
        Some(h) => {
            let a = seq![AtomView::Cmp(CmpOp::Ge, devify(v)), AtomView::Cmp(CmpOp::Lt, h)];
            assert(parse_body(t, None) == Some(a));
            lemma_one_branch(a, w);
            lemma_release_range(v, h, w);
        },
        None => {},
    }
}

/// `~b` for a release bound `v` of which `b` writes `c` numbers, on
/// releases `w`: with one or two numbers written, the releases of `v`'s
/// major not below `v`; with three, those of `v`'s major and minor not
/// below `v`; with four, those of `v`'s major, minor and patch not below
/// `v`.
pub proof fn law_tilde_constraint(b: Seq<char>, w: VersionView)
    requires
        plain_token(b),
        no_flag(b),
        starts_with_digit(b),
        numbered(b) is Some,
        plain_release(numbered(b)->Some_0.0),
        plain_release(w),
    ensures
        ({
            let v = numbered(b)->Some_0.0;
            let c = numbered(b)->Some_0.1;
            let t = seq!['~'] + b;
            &&& c <= 2 && v.major < u32::MAX ==> parse_constraint(t) is Some
                && constraint_matches(parse_constraint(t)->Some_0, w) == (w.major == v.major && !numbers_before(numbers_of(w), numbers_of(v)))
            &&& c == 3 && v.minor < u32::MAX ==> parse_constraint(t) is Some
                && constraint_matches(parse_constraint(t)->Some_0, w) == (w.major == v.major && w.minor == v.minor
                && !numbers_before(numbers_of(w), numbers_of(v)))
            &&& c >= 4 && v.patch < u32::MAX ==> parse_constraint(t) is Some
                && constraint_matches(parse_constraint(t)->Some_0, w) == (w.major == v.major && w.minor == v.minor
                && w.patch == v.patch && !numbers_before(numbers_of(w), numbers_of(v)))
        }),
{
    let v = numbered(b)->Some_0.0;
    let c = numbered(b)->Some_0.1;
    let t = seq!['~'] + b;
    lemma_prefixed(seq!['~'], b);
    lemma_single_token(t);
    match tilde_bound(v, c) {
        Some(h) => {
            let a = seq![AtomView::Cmp(CmpOp::Ge, devify(v)), AtomView::Cmp(CmpOp::Lt, h)];
            assert(parse_body(t, None) == Some(a));
            lemma_one_branch(a, w);
            lemma_release_range(v, h, w);
        },
        None => {},
    }
}

/// `b.*` for a release `v` of which `b` writes `c` numbers, on releases
/// `w`: with one number written, the releases of that major not below `v`;
/// with two, those of that major and minor; with three, those of that
/// major, minor and patch (each not below `v`).
pub proof fn law_wildcard_constraint(b: Seq<char>, w: VersionView)
    requires
        plain_token(b),
        no_flag(b),
        starts_with_digit(b),
        numbered(b) is Some,
        plain_release(numbered(b)->Some_0.0),
        plain_release(w),
    ensures
        ({
            let v = numbered(b)->Some_0.0;
            let c = numbered(b)->Some_0.1;
            let t = b + seq!['.', '*'];
            &&& c == 1 && v.major < u32::MAX ==> parse_constraint(t) is Some
                && constraint_matches(parse_constraint(t)->Some_0, w) == (w.major == v.major && !numbers_before(numbers_of(w), numbers_of(v)))
            &&& c == 2 && v.minor < u32::MAX ==> parse_constraint(t) is Some
                && constraint_matches(parse_constraint(t)->Some_0, w) == (w.major == v.major && w.minor == v.minor
                && !numbers_before(numbers_of(w), numbers_of(v)))
            &&& c == 3 && v.patch < u32::MAX ==> parse_constraint(t) is Some
                && constraint_matches(parse_constraint(t)->Some_0, w) == (w.major == v.major && w.minor == v.minor
                && w.patch == v.patch && !numbers_before(numbers_of(w), numbers_of(v)))
        }),
{
    let v = numbered(b)->Some_0.0;
    let c = numbered(b)->Some_0.1;
    let t = b + seq!['.', '*'];
    assert forall|i: int| 0 <= i < t.len() implies !is_and_sep(#[trigger] t[i]) && !is_or_sep(t[i]) && t[i] != '@' by {
        if i < b.len() {
            assert(t[i] == b[i]);
        }
    }
    assert(t.take(t.len() - 2) =~= b);
    assert(t[0] == b[0]);
    lemma_single_token(t);
    assert(is_wildcard(t));
    if 1 <= c <= 3 {
        match partial_bound(v, c) {
            Some(h) => {
                let a = seq![AtomView::Cmp(CmpOp::Ge, devify(v)), AtomView::Cmp(CmpOp::Lt, h)];
                assert(parse_body(t, None) == Some(a));
                lemma_one_branch(a, w);
                lemma_release_range(v, h, w);
            },
            None => {},
        }
    }
}

/// `*` reads as a constraint that every version matches.
pub proof fn law_star_matches_everything(w: VersionView)
    ensures
        parse_constraint(seq!['*']) is Some,
        constraint_matches(parse_constraint(seq!['*'])->Some_0, w),
{
    let t = seq!['*'];
    assert(plain_token(t) && no_flag(t));
    lemma_single_token(t);
    assert(parse_body(t, None) == Some(Seq::<AtomView>::empty()));
    lemma_one_branch(Seq::empty(), w);
}

/// A hyphen range `A - B` whose upper end `B` writes only one or two
/// numbers takes in every release of that major (or major and minor): on
/// releases `w`, from a release `A`, it admits the releases not below `A`
/// whose numbers are below the next major (one number written) or the next
/// minor (two numbers written).
pub proof fn law_hyphen_range_partial_upper(a: Seq<char>, b: Seq<char>, w: VersionView)
    requires
        plain_token(a),
        plain_token(b),
        numbered(a) is Some,
        numbered(b) is Some,
        plain_release(numbered(a)->Some_0.0),
        plain_release(w),
    ensures
        ({
            let lo = numbered(a)->Some_0.0;
            let hi = numbered(b)->Some_0.0;
            let c = numbered(b)->Some_0.1;
            let t = a + " - "@ + b;
            &&& c == 1 && hi.major < u32::MAX ==> parse_constraint(t) is Some && constraint_matches(parse_constraint(t)->Some_0, w)
                == (!numbers_before(numbers_of(w), numbers_of(lo)) && numbers_before(numbers_of(w), (hi.major + 1, 0, 0, 0)))
            &&& c == 2 && hi.minor < u32::MAX ==> parse_constraint(t) is Some && constraint_matches(parse_constraint(t)->Some_0, w)
                == (!numbers_before(numbers_of(w), numbers_of(lo)) && numbers_before(
                numbers_of(w),
                (hi.major as int, hi.minor + 1, 0, 0),
            ))
        }),
{
    reveal_strlit(" - ");
    let s = a + " - "@ + b;
    assert(s =~= a + seq![' ', '-', ' '] + b);
    lemma_split_hyphen(a, b);
    let lo = numbered(a)->Some_0.0;
    let hi = numbered(b)->Some_0.0;
    let c = numbered(b)->Some_0.1;
    let ts = and_pieces(s);
    assert(ts.len() == 3 && ts[0] == a && ts[1] == seq!['-'] && ts[2] == b);
    assert(or_pieces(s)[0] == s);
    if c < 3 {
        match partial_bound(hi, c) {
            Some(h) => {
                let br = seq![AtomView::Cmp(CmpOp::Ge, devify(lo)), AtomView::Cmp(CmpOp::Lt, h)];
                assert(parse_branch(s) == Some(br));
                assert(parse_branches_from(seq![s], 0, Seq::empty()) == parse_branches_from(seq![s], 1, Seq::<Seq<AtomView>>::empty().push(br)));
                assert(Seq::<Seq<AtomView>>::empty().push(br) =~= seq![br]);
                assert(parse_constraint(s) == Some(seq![br]));
                lemma_one_branch(br, w);
                lemma_release_range(lo, h, w);
            },
            None => {},
        }
    }
}

} // verus!
