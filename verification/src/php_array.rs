//! How PHP reads the PSR-4 file that the generator writes: the array the
//! file returns is the map that was rendered, key for key and path for
//! path, in the same order.
use vstd::prelude::*;
use crate::autoload::{escaped, law_php_literal_reads_back, php_header, php_single_quoted, psr4_lines, psr4_php, quoted_list};

verus! {

/// `t` begins with `p`.
pub open spec fn starts(t: Seq<char>, p: Seq<char>) -> bool {
    t.len() >= p.len() && t.take(p.len() as int) == p
}

/// What opens an entry: two spaces and the key's opening quote.
pub open spec fn entry_open() -> Seq<char> {
    seq![' ', ' ', '\'']
}

/// What follows an entry's key: ` => array(`.
pub open spec fn array_open() -> Seq<char> {
    seq![' ', '=', '>', ' ', 'a', 'r', 'r', 'a', 'y', '(']
}

/// What closes an entry: `),` and a line end.
pub open spec fn entry_close() -> Seq<char> {
    seq![')', ',', '\n']
}

/// What separates two literals of a list: `, ` and the next opening quote.
pub open spec fn list_sep() -> Seq<char> {
    seq![',', ' ', '\'']
}

/// What closes the returned array: `);` and a line end.
pub open spec fn array_close() -> Seq<char> {
    seq![')', ';', '\n']
}

pub proof fn lemma_literal_tail_shorter(t: Seq<char>)
    ensures
        php_single_quoted(t) matches Some(r) ==> r.1.len() < t.len(),
    decreases t.len(),
{
    if t.len() > 0 && t[0] != '\'' {
        if t[0] == '\\' && t.len() >= 2 && (t[1] == '\\' || t[1] == '\'') {
            lemma_literal_tail_shorter(t.skip(2));
        } else {
            lemma_literal_tail_shorter(t.skip(1));
        }
    }
}

/// After a list's first literal, PHP reads each further `, '...'` literal:
/// their values in order, and the text after the last.
pub open spec fn php_more_literals(t: Seq<char>) -> Option<(Seq<Seq<char>>, Seq<char>)>
    decreases t.len(),
{
    if starts(t, list_sep()) {
        proof {
            lemma_literal_tail_shorter(t.skip(3));
        }
        match php_single_quoted(t.skip(3)) {
            Some(r) => match php_more_literals(r.1) {
                Some(q) => Some((seq![r.0] + q.0, q.1)),
                None => None,
            },
            None => None,
        }
    } else {
        Some((Seq::empty(), t))
    }
}

/// The literals of an `array(...)` list as PHP reads them: none, or a first
/// `'...'` and then the further ones; with the text after them.
pub open spec fn php_literals(t: Seq<char>) -> Option<(Seq<Seq<char>>, Seq<char>)> {
    if t.len() > 0 && t[0] == '\'' {
        match php_single_quoted(t.skip(1)) {
            Some(r) => match php_more_literals(r.1) {
                Some(q) => Some((seq![r.0] + q.0, q.1)),
                None => None,
            },
            None => None,
        }
    } else {
        Some((Seq::empty(), t))
    }
}

pub proof fn lemma_more_tail(t: Seq<char>)
    ensures
        php_more_literals(t) matches Some(q) ==> q.1.len() <= t.len(),
    decreases t.len(),
{
    if starts(t, list_sep()) {
        lemma_literal_tail_shorter(t.skip(3));
        match php_single_quoted(t.skip(3)) {
            Some(r) => lemma_more_tail(r.1),
            None => {},
        }
    }
}

pub proof fn lemma_literals_tail(t: Seq<char>)
    ensures
        php_literals(t) matches Some(q) ==> q.1.len() <= t.len(),
{
    if t.len() > 0 && t[0] == '\'' {
        lemma_literal_tail_shorter(t.skip(1));
        match php_single_quoted(t.skip(1)) {
            Some(r) => lemma_more_tail(r.1),
            None => {},
        }
    }
}

/// The entries `  'key' => array('path', ...),` of the returned array as
/// PHP reads them, in order, and the text after the last.
pub open spec fn php_psr4_entries(t: Seq<char>) -> Option<(Seq<(Seq<char>, Seq<Seq<char>>)>, Seq<char>)>
    decreases t.len(),
{
    if starts(t, entry_open()) {
        proof {
            lemma_literal_tail_shorter(t.skip(3));
        }
        match php_single_quoted(t.skip(3)) {
            Some(k) => {
                if starts(k.1, array_open()) {
                    proof {
                        lemma_literals_tail(k.1.skip(10));
                    }
                    match php_literals(k.1.skip(10)) {
                        Some(ps) => {
                            if starts(ps.1, entry_close()) {
                                match php_psr4_entries(ps.1.skip(3)) {
                                    Some(rest) => Some((seq![(k.0, ps.0)] + rest.0, rest.1)),
                                    None => None,
                                }
                            } else {
                                None
                            }
                        },
                        None => None,
                    }
                } else {
                    None
                }
            },
            None => None,
        }
    } else {
        Some((Seq::empty(), t))
    }
}

/// The array a PSR-4 file returns, as PHP reads it: after the header that
/// opens `return array(`, the entries, then `);` and a line end; nothing
/// when the text is not such a file.
pub open spec fn php_psr4_file(t: Seq<char>) -> Option<Seq<(Seq<char>, Seq<Seq<char>>)>> {
    let h = php_header("autoload_psr4.php"@);
    if starts(t, h) {
        match php_psr4_entries(t.skip(h.len() as int)) {
            Some(e) => if e.1 == array_close() {
                Some(e.0)
            } else {
                None
            },
            None => None,
        }
    } else {
        None
    }
}

/// The further literals of a list, written from the first on.
spec fn more_text(qs: Seq<Seq<char>>) -> Seq<char>
    decreases qs.len(),
{
    if qs.len() == 0 {
        Seq::empty()
    } else {
        list_sep() + escaped(qs[0]) + seq!['\''] + more_text(qs.drop_first())
    }
}

/// One entry's text.
spec fn entry_text(e: (Seq<char>, Seq<Seq<char>>)) -> Seq<char> {
    entry_open() + escaped(e.0) + seq!['\''] + array_open() + quoted_list(e.1) + entry_close()
}

/// The entries' text, written from the first on.
spec fn entries_text(m: Seq<(Seq<char>, Seq<Seq<char>>)>) -> Seq<char>
    decreases m.len(),
{
    if m.len() == 0 {
        Seq::empty()
    } else {
        entry_text(m[0]) + entries_text(m.drop_first())
    }
}

proof fn lemma_more_snoc(qs: Seq<Seq<char>>)
    requires
        qs.len() > 0,
    ensures
        more_text(qs) == more_text(qs.drop_last()) + list_sep() + escaped(qs.last()) + seq!['\''],
    decreases qs.len(),
{
    if qs.len() > 1 {
        lemma_more_snoc(qs.drop_first());
        assert(qs.drop_first().drop_last() =~= qs.drop_last().drop_first());
        assert(qs.drop_last()[0] == qs[0]);
        assert(qs.drop_first().last() == qs.last());
        let p = list_sep() + escaped(qs[0]) + seq!['\''];
        let l = list_sep() + escaped(qs.last()) + seq!['\''];
        assert(p + (more_text(qs.drop_first().drop_last()) + l) =~= p + more_text(qs.drop_first().drop_last()) + l);
    } else {
        assert(qs.drop_first() =~= Seq::<Seq<char>>::empty());
        assert(qs.drop_last() =~= Seq::<Seq<char>>::empty());
        assert(qs[0] == qs.last());
        assert(more_text(qs) =~= more_text(qs.drop_last()) + list_sep() + escaped(qs.last()) + seq!['\'']);
    }
}

proof fn lemma_quoted_forward(ps: Seq<Seq<char>>)
    requires
        ps.len() > 0,
    ensures
        quoted_list(ps) == seq!['\''] + escaped(ps[0]) + seq!['\''] + more_text(ps.drop_first()),
    decreases ps.len(),
{
    reveal_strlit(", '");
    assert(", '"@ =~= list_sep());
    if ps.len() == 1 {
        assert(ps.drop_first() =~= Seq::<Seq<char>>::empty());
        assert(quoted_list(ps) =~= seq!['\''] + escaped(ps[0]) + seq!['\''] + more_text(ps.drop_first()));
    } else {
        lemma_quoted_forward(ps.drop_last());
        lemma_more_snoc(ps.drop_first());
        assert(ps.drop_last().drop_first() =~= ps.drop_first().drop_last());
        assert(ps.drop_last()[0] == ps[0]);
        assert(ps.drop_first().last() == ps.last());
        let h = seq!['\''] + escaped(ps[0]) + seq!['\''];
        let l = list_sep() + escaped(ps.last()) + seq!['\''];
        assert(quoted_list(ps) =~= h + more_text(ps.drop_last().drop_first()) + l);
        assert(h + more_text(ps.drop_last().drop_first()) + l =~= h + (more_text(ps.drop_first().drop_last()) + l));
    }
}

proof fn lemma_entries_snoc(m: Seq<(Seq<char>, Seq<Seq<char>>)>)
    requires
        m.len() > 0,
    ensures
        entries_text(m) == entries_text(m.drop_last()) + entry_text(m.last()),
    decreases m.len(),
{
    if m.len() > 1 {
        lemma_entries_snoc(m.drop_first());
        assert(m.drop_first().drop_last() =~= m.drop_last().drop_first());
        assert(m.drop_last()[0] == m[0]);
        assert(m.drop_first().last() == m.last());
        let p = entry_text(m[0]);
        let l = entry_text(m.last());
        assert(p + (entries_text(m.drop_first().drop_last()) + l) =~= p + entries_text(m.drop_first().drop_last()) + l);
    } else {
        assert(m.drop_first() =~= Seq::<(Seq<char>, Seq<Seq<char>>)>::empty());
        assert(m.drop_last() =~= Seq::<(Seq<char>, Seq<Seq<char>>)>::empty());
        assert(m[0] == m.last());
        assert(entries_text(m) =~= entries_text(m.drop_last()) + entry_text(m.last()));
    }
}

proof fn lemma_lines_forward(m: Seq<(Seq<char>, Seq<Seq<char>>)>)
    ensures
        psr4_lines(m) == entries_text(m),
    decreases m.len(),
{
    if m.len() > 0 {
        lemma_lines_forward(m.drop_last());
        lemma_entries_snoc(m);
        reveal_strlit("  '");
        reveal_strlit("' => array(");
        reveal_strlit("),\n");
        assert("  '"@ =~= entry_open());
        assert("' => array("@ =~= seq!['\''] + array_open());
        assert("),\n"@ =~= entry_close());
        assert(psr4_lines(m) =~= entries_text(m.drop_last()) + entry_text(m.last()));
    }
}

proof fn lemma_read_more(qs: Seq<Seq<char>>, rest: Seq<char>)
    requires
        !starts(rest, list_sep()),
    ensures
        php_more_literals(more_text(qs) + rest) == Some((qs, rest)),
    decreases qs.len(),
{
    let t = more_text(qs) + rest;
    if qs.len() == 0 {
        assert(t =~= rest);
    } else {
        let q1 = qs.drop_first();
        let after = more_text(q1) + rest;
        lemma_read_more(q1, rest);
        assert(t =~= list_sep() + (escaped(qs[0]) + seq!['\''] + after));
        assert(t.take(3) =~= list_sep());
        assert(t.skip(3) =~= escaped(qs[0]) + seq!['\''] + after);
        law_php_literal_reads_back(qs[0], after);
        assert(seq![qs[0]] + q1 =~= qs);
    }
}

proof fn lemma_read_literals(ps: Seq<Seq<char>>, rest: Seq<char>)
    requires
        rest.len() > 0,
        rest[0] == ')',
    ensures
        php_literals(quoted_list(ps) + rest) == Some((ps, rest)),
{
    let t = quoted_list(ps) + rest;
    if ps.len() == 0 {
        assert(quoted_list(ps) =~= Seq::<char>::empty());
        assert(t =~= rest);
    } else {
        lemma_quoted_forward(ps);
        let q1 = ps.drop_first();
        let after = more_text(q1) + rest;
        assert(!starts(rest, list_sep())) by {
            if starts(rest, list_sep()) {
                assert(rest.take(3)[0] == rest[0]);
            }
        }
        lemma_read_more(q1, rest);
        assert(t =~= seq!['\''] + (escaped(ps[0]) + seq!['\''] + after));
        assert(t.skip(1) =~= escaped(ps[0]) + seq!['\''] + after);
        law_php_literal_reads_back(ps[0], after);
        assert(seq![ps[0]] + q1 =~= ps);
    }
}

/// One entry read, then the rest.
proof fn lemma_entries_step(
    t: Seq<char>,
    key: Seq<char>,
    a: Seq<char>,
    ps: Seq<Seq<char>>,
    b: Seq<char>,
    es: Seq<(Seq<char>, Seq<Seq<char>>)>,
    r: Seq<char>,
)
    requires
        starts(t, entry_open()),
        php_single_quoted(t.skip(3)) == Some((key, a)),
        starts(a, array_open()),
        php_literals(a.skip(10)) == Some((ps, b)),
        starts(b, entry_close()),
        php_psr4_entries(b.skip(3)) == Some((es, r)),
    ensures
        php_psr4_entries(t) == Some((seq![(key, ps)] + es, r)),
{
}

#[verifier::rlimit(40)]
proof fn lemma_read_entries(m: Seq<(Seq<char>, Seq<Seq<char>>)>, rest: Seq<char>)
    requires
        rest == array_close(),
    ensures
        php_psr4_entries(entries_text(m) + rest) == Some((m, rest)),
    decreases m.len(),
{
    let t = entries_text(m) + rest;
    if m.len() == 0 {
        assert(t =~= rest);
        assert(!starts(rest, entry_open())) by {
            if starts(rest, entry_open()) {
                assert(rest.take(3)[0] == rest[0]);
            }
        }
    } else {
        let e = m[0];
        let m1 = m.drop_first();
        lemma_read_entries(m1, rest);
        let after = entries_text(m1) + rest;
        let close_and_after = entry_close() + after;
        let list_and_after = quoted_list(e.1) + close_and_after;
        let arr = array_open() + list_and_after;
        assert(t.take(3) =~= entry_open() && t.skip(3) =~= escaped(e.0) + seq!['\''] + arr) by {
            assert(t =~= entry_open() + (escaped(e.0) + seq!['\''] + arr));
        }
        law_php_literal_reads_back(e.0, arr);
        assert(arr.take(10) =~= array_open() && arr.skip(10) =~= list_and_after);
        lemma_read_literals(e.1, close_and_after);
        assert(close_and_after.take(3) =~= entry_close() && close_and_after.skip(3) =~= after);
        lemma_entries_step(t, e.0, arr, e.1, close_and_after, m1, rest);
        assert(seq![(e.0, e.1)] + m1 =~= m);
    }
}

/// The PSR-4 file rendered for a map reads back, in PHP, as that map: each
/// key and each path as a PHP single-quoted literal gives back the text
/// that was written, entries and paths in the same order.
pub proof fn law_psr4_file_reads_back(m: Seq<(Seq<char>, Seq<Seq<char>>)>)
    ensures
        php_psr4_file(psr4_php(m)) == Some(m),
{
    let h = php_header("autoload_psr4.php"@);
    lemma_lines_forward(m);
    reveal_strlit(");\n");
    assert(");\n"@ =~= array_close());
    let body = entries_text(m) + array_close();
    let t = psr4_php(m);
    assert(t =~= h + body);
    assert(t.take(h.len() as int) =~= h);
    assert(t.skip(h.len() as int) =~= body);
    lemma_read_entries(m, array_close());
}

} // verus!
