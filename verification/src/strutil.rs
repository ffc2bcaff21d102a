//! String helpers for the cache file format: splitting and joining on a
//! separator character, and an escaping scheme that keeps arbitrary text free
//! of separators. Every operation comes with a specification-level mirror and
//! the lemmas that make the encode/decode round trip provable.
use vstd::prelude::*;
use vstd::string::StrSliceExecFns;
use vstd::string::StringExecFns;

verus! {

pub open spec fn seq_has_char(s: Seq<char>, c: char) -> bool {
    exists|i: int| 0 <= i < s.len() && s[i] == c
}

/// The pieces of `s` between occurrences of `sep`; always at least one piece.
pub open spec fn spec_split(s: Seq<char>, sep: char) -> Seq<Seq<char>>
    decreases s.len(),
{
    if s.len() == 0 {
        seq![Seq::<char>::empty()]
    } else {
        let rest = spec_split(s.drop_first(), sep);
        if s[0] == sep {
            seq![Seq::<char>::empty()] + rest
        } else {
            seq![seq![s[0]] + rest[0]] + rest.drop_first()
        }
    }
}

/// The pieces of `ps` with `sep` between each adjacent pair.
pub open spec fn spec_join(ps: Seq<Seq<char>>, sep: char) -> Seq<char>
    decreases ps.len(),
{
    if ps.len() == 0 {
        Seq::<char>::empty()
    } else if ps.len() == 1 {
        ps[0]
    } else {
        ps[0] + seq![sep] + spec_join(ps.drop_first(), sep)
    }
}

pub proof fn lemma_split_len(s: Seq<char>, sep: char)
    ensures
        spec_split(s, sep).len() >= 1,
    decreases s.len(),
{
    if s.len() != 0 {
        lemma_split_len(s.drop_first(), sep);
    }
}

pub proof fn lemma_split_no_sep(s: Seq<char>, sep: char)
    requires
        !seq_has_char(s, sep),
    ensures
        spec_split(s, sep) == seq![s],
    decreases s.len(),
{
    if s.len() == 0 {
        assert(spec_split(s, sep) =~~= seq![s]);
    } else {
        assert(s[0] != sep);
        assert(!seq_has_char(s.drop_first(), sep)) by {
            assert(forall|i: int|
                0 <= i < s.drop_first().len() ==> s.drop_first()[i] == s[i + 1]);
        }
        lemma_split_no_sep(s.drop_first(), sep);
        lemma_split_len(s.drop_first(), sep);
        assert(spec_split(s, sep) =~~= seq![s]);
    }
}

pub proof fn lemma_split_concat(a: Seq<char>, b: Seq<char>, sep: char)
    requires
        !seq_has_char(a, sep),
    ensures
        spec_split(a + seq![sep] + b, sep) == seq![a] + spec_split(b, sep),
    decreases a.len(),
{
    let s = a + seq![sep] + b;
    if a.len() == 0 {
        assert(s.len() >= 1 && s[0] == sep);
        assert(s.drop_first() =~= b);
        assert(spec_split(s, sep) =~~= seq![a] + spec_split(b, sep));
    } else {
        assert(s[0] == a[0] && a[0] != sep);
        assert(!seq_has_char(a.drop_first(), sep)) by {
            assert(forall|i: int|
                0 <= i < a.drop_first().len() ==> a.drop_first()[i] == a[i + 1]);
        }
        assert(s.drop_first() =~= a.drop_first() + seq![sep] + b);
        lemma_split_concat(a.drop_first(), b, sep);
        lemma_split_len(b, sep);
        let rest = spec_split(s.drop_first(), sep);
        assert(rest == seq![a.drop_first()] + spec_split(b, sep));
        assert(rest[0] == a.drop_first());
        assert(rest.drop_first() =~~= spec_split(b, sep));
        assert(seq![s[0]] + rest[0] =~= a);
        assert(spec_split(s, sep) =~~= seq![a] + spec_split(b, sep));
    }
}

/// Splitting undoes joining, for any non-empty list of separator-free pieces.
pub proof fn lemma_join_split(ps: Seq<Seq<char>>, sep: char)
    requires
        ps.len() >= 1,
        forall|i: int| 0 <= i < ps.len() ==> !seq_has_char(#[trigger] ps[i], sep),
    ensures
        spec_split(spec_join(ps, sep), sep) == ps,
    decreases ps.len(),
{
    if ps.len() == 1 {
        lemma_split_no_sep(ps[0], sep);
        assert(spec_split(spec_join(ps, sep), sep) =~~= ps);
    } else {
        lemma_split_concat(ps[0], spec_join(ps.drop_first(), sep), sep);
        lemma_join_split(ps.drop_first(), sep);
        assert(spec_split(spec_join(ps, sep), sep) =~~= ps);
    }
}

/// What str::to_lowercase returns, as a function of the characters alone.
pub uninterp spec fn lower_of(s: Seq<char>) -> Seq<char>;

/// Relies on str::to_lowercase: the result depends on the characters alone.
#[verifier::external_body]
pub fn to_lowercase(s: &str) -> (r: String)
    ensures
        r@ == lower_of(s@),
{
    s.to_lowercase()
}

pub fn str_eq(a: &str, b: &str) -> (r: bool)
    ensures
        r == (a@ == b@),
{
    let x = a.to_owned();
    let y = b.to_owned();
    x == y
}

spec fn prepend_first(p: Seq<char>, ps: Seq<Seq<char>>) -> Seq<Seq<char>>
    recommends
        ps.len() >= 1,
{
    seq![p + ps[0]] + ps.drop_first()
}

pub fn split_str(s: &str, sep: char) -> (r: Vec<String>)
    ensures
        r.deep_view() == spec_split(s@, sep),
        r@.len() >= 1,
{
    let n = s.unicode_len();
    let mut r: Vec<String> = Vec::new();
    let mut cur: String = String::new();
    let mut i: usize = 0;
    proof {
        assert(prepend_first(cur@, spec_split(s@.skip(0), sep)) =~~= spec_split(s@, sep)) by {
            lemma_split_len(s@.skip(0), sep);
            assert(s@.skip(0) =~= s@);
        }
    }
    while i < n
        invariant
            i <= n,
            n == s@.len(),
            spec_split(s@, sep) =~~= r.deep_view() + prepend_first(
                cur@,
                spec_split(s@.skip(i as int), sep),
            ),
        decreases n - i,
    {
        let c = s.get_char(i);
        proof {
            let tail = s@.skip(i as int);
            assert(tail.len() > 0 && tail[0] == s@[i as int]);
            assert(tail.drop_first() =~= s@.skip(i as int + 1));
            lemma_split_len(s@.skip(i as int + 1), sep);
        }
        if c == sep {
            r.push(cur);
            cur = String::new();
            proof {
                assert(spec_split(s@, sep) =~~= r.deep_view() + prepend_first(
                    cur@,
                    spec_split(s@.skip(i as int + 1), sep),
                ));
            }
        } else {
            let piece = s.substring_char(i, i + 1);
            proof {
                assert(piece@ =~= seq![s@[i as int]]);
            }
            cur.append(piece);
            proof {
                assert(spec_split(s@, sep) =~~= r.deep_view() + prepend_first(
                    cur@,
                    spec_split(s@.skip(i as int + 1), sep),
                ));
            }
        }
        i = i + 1;
    }
    proof {
        assert(s@.skip(n as int) =~= Seq::<char>::empty());
    }
    r.push(cur);
    proof {
        assert(r.deep_view() =~~= spec_split(s@, sep));
        lemma_split_len(s@, sep);
    }
    r
}

/// Joining is the exec mirror of `spec_join`; `sep_str` must render `sep`.
pub fn join_strs(ps: &Vec<String>, sep: char, sep_str: &str) -> (r: String)
    requires
        sep_str@ == seq![sep],
    ensures
        r@ == spec_join(ps.deep_view(), sep),
{
    let mut r: String = String::new();
    let mut i: usize = 0;
    while i < ps.len()
        invariant
            i <= ps@.len(),
            sep_str@ == seq![sep],
            r@ == spec_join(ps.deep_view().take(i as int), sep),
        decreases ps@.len() - i,
    {
        if i > 0 {
            r.append(sep_str);
        }
        r.append(ps[i].as_str());
        proof {
            let dv = ps.deep_view();
            assert(dv.take(i as int + 1).drop_last() =~~= dv.take(i as int));
            assert(dv.take(i as int + 1).last() == dv[i as int]);
            lemma_join_push(dv.take(i as int), dv[i as int], sep);
            assert(dv.take(i as int + 1) =~~= dv.take(i as int).push(dv[i as int]));
        }
        i = i + 1;
    }
    proof {
        assert(ps.deep_view().take(ps.deep_view().len() as int) =~~= ps.deep_view());
    }
    r
}

/// A character made safe for a space- and newline-delimited layout.
pub open spec fn esc_char(c: char) -> Seq<char> {
    if c == '%' {
        seq!['%', 'p']
    } else if c == ' ' {
        seq!['%', 's']
    } else if c == '\n' {
        seq!['%', 'n']
    } else if c == '\r' {
        seq!['%', 'r']
    } else {
        seq![c]
    }
}

pub open spec fn is_esc_code(c: char) -> bool {
    c == 'p' || c == 's' || c == 'n' || c == 'r'
}

pub open spec fn unesc_code(c: char) -> char {
    if c == 'p' {
        '%'
    } else if c == 's' {
        ' '
    } else if c == 'n' {
        '\n'
    } else {
        '\r'
    }
}

pub open spec fn spec_escape(s: Seq<char>) -> Seq<char>
    decreases s.len(),
{
    if s.len() == 0 {
        Seq::<char>::empty()
    } else {
        esc_char(s[0]) + spec_escape(s.drop_first())
    }
}

/// Inverse of `spec_escape`; `None` marks text that no escape produced.
pub open spec fn spec_unescape(s: Seq<char>) -> Option<Seq<char>>
    decreases s.len(),
{
    if s.len() == 0 {
        Some(Seq::<char>::empty())
    } else if s[0] == '%' {
        if s.len() >= 2 && is_esc_code(s[1]) {
            match spec_unescape(s.skip(2)) {
                Some(r) => Some(seq![unesc_code(s[1])] + r),
                None => None,
            }
        } else {
            None
        }
    } else if s[0] == ' ' || s[0] == '\n' || s[0] == '\r' {
        None
    } else {
        match spec_unescape(s.drop_first()) {
            Some(r) => Some(seq![s[0]] + r),
            None => None,
        }
    }
}

pub proof fn lemma_escape_no_sep(s: Seq<char>)
    ensures
        !seq_has_char(spec_escape(s), ' '),
        !seq_has_char(spec_escape(s), '\n'),
        !seq_has_char(spec_escape(s), '\r'),
    decreases s.len(),
{
    if s.len() != 0 {
        lemma_escape_no_sep(s.drop_first());
        let e = esc_char(s[0]);
        let rest = spec_escape(s.drop_first());
        assert(forall|i: int| 0 <= i < e.len() ==> e[i] != ' ' && e[i] != '\n' && e[i] != '\r');
        assert(forall|i: int|
            0 <= i < spec_escape(s).len() ==> #[trigger] spec_escape(s)[i] == (if i < e.len() {
                e[i]
            } else {
                rest[i - e.len()]
            }));
    }
}

pub proof fn lemma_escape_push(s: Seq<char>, c: char)
    ensures
        spec_escape(s.push(c)) == spec_escape(s) + esc_char(c),
    decreases s.len(),
{
    if s.len() == 0 {
        assert(s.push(c).drop_first() =~= Seq::<char>::empty());
        assert(s.push(c)[0] == c);
        assert(spec_escape(s.push(c)) == esc_char(c) + spec_escape(Seq::<char>::empty()));
        assert(esc_char(c) + Seq::<char>::empty() =~= Seq::<char>::empty() + esc_char(c));
    } else {
        assert(s.push(c).drop_first() =~= s.drop_first().push(c));
        lemma_escape_push(s.drop_first(), c);
        assert(spec_escape(s.push(c)) =~= spec_escape(s) + esc_char(c));
    }
}

/// Unescaping undoes escaping: the token round trip.
pub proof fn lemma_unescape_escape(s: Seq<char>)
    ensures
        spec_unescape(spec_escape(s)) == Some(s),
    decreases s.len(),
{
    if s.len() == 0 {
    } else {
        lemma_unescape_escape(s.drop_first());
        let e = spec_escape(s);
        let rest = spec_escape(s.drop_first());
        if s[0] == '%' || s[0] == ' ' || s[0] == '\n' || s[0] == '\r' {
            assert(e[0] == '%' && e.len() >= 2 && is_esc_code(e[1]));
            assert(e.skip(2) =~= rest);
            assert(unesc_code(e[1]) == s[0]);
            assert(seq![s[0]] + s.drop_first() =~= s);
        } else {
            assert(e[0] == s[0]);
            assert(e.drop_first() =~= rest);
            assert(seq![s[0]] + s.drop_first() =~= s);
        }
    }
}

pub fn escape_token(s: &str) -> (r: String)
    ensures
        r@ == spec_escape(s@),
{
    let n = s.unicode_len();
    let mut r: String = String::new();
    let mut i: usize = 0;
    while i < n
        invariant
            i <= n,
            n == s@.len(),
            r@ == spec_escape(s@.take(i as int)),
        decreases n - i,
    {
        let c = s.get_char(i);
        if c == '%' {
            r.append("%p");
            proof {
                reveal_strlit("%p");
            }
        } else if c == ' ' {
            r.append("%s");
            proof {
                reveal_strlit("%s");
            }
        } else if c == '\n' {
            r.append("%n");
            proof {
                reveal_strlit("%n");
            }
        } else if c == '\r' {
            r.append("%r");
            proof {
                reveal_strlit("%r");
            }
        } else {
            let piece = s.substring_char(i, i + 1);
            proof {
                assert(piece@ =~= seq![c]);
            }
            r.append(piece);
        }
        proof {
            lemma_escape_push(s@.take(i as int), c);
            assert(s@.take(i as int + 1) =~= s@.take(i as int).push(c));
            assert(r@ =~= spec_escape(s@.take(i as int + 1)));
        }
        i = i + 1;
    }
    proof {
        assert(s@.take(n as int) =~= s@);
    }
    r
}

spec fn opt_prepend(p: Seq<char>, o: Option<Seq<char>>) -> Option<Seq<char>> {
    match o {
        Some(r) => Some(p + r),
        None => None,
    }
}

proof fn lemma_opt_prepend_shift(a: Seq<char>, c: char, o: Option<Seq<char>>)
    ensures
        opt_prepend(
            a,
            match o {
                Some(r) => Some(seq![c] + r),
                None => None,
            },
        ) == opt_prepend(a.push(c), o),
{
    match o {
        Some(r) => {
            assert(a + (seq![c] + r) =~= a.push(c) + r);
        },
        None => {},
    }
}

pub fn unescape_token(s: &str) -> (r: Option<String>)
    ensures
        match r {
            Some(t) => spec_unescape(s@) == Some(t@),
            None => spec_unescape(s@) is None,
        },
{
    let n = s.unicode_len();
    let mut out: String = String::new();
    let mut i: usize = 0;
    proof {
        assert(s@.skip(0) =~= s@);
        if spec_unescape(s@) is Some {
            assert(out@ + spec_unescape(s@)->Some_0 =~= spec_unescape(s@)->Some_0);
        }
    }
    while i < n
        invariant
            i <= n,
            n == s@.len(),
            spec_unescape(s@) == opt_prepend(out@, spec_unescape(s@.skip(i as int))),
        decreases n - i,
    {
        let ghost out0 = out@;
        let ghost tail = s@.skip(i as int);
        let c = s.get_char(i);
        proof {
            assert(tail.len() > 0 && tail[0] == s@[i as int]);
            assert(tail.drop_first() =~= s@.skip(i as int + 1));
        }
        if c == '%' {
            if i + 1 >= n {
                proof {
                    assert(spec_unescape(tail) is None);
                }
                return None;
            }
            let c2 = s.get_char(i + 1);
            proof {
                assert(tail[1] == s@[i as int + 1]);
                assert(tail.skip(2) =~= s@.skip(i as int + 2));
            }
            if c2 == 'p' {
                out.append("%");
                proof {
                    reveal_strlit("%");
                    assert(out@ =~= out0.push('%'));
                }
            } else if c2 == 's' {
                out.append(" ");
                proof {
                    reveal_strlit(" ");
                    assert(out@ =~= out0.push(' '));
                }
            } else if c2 == 'n' {
                out.append("\n");
                proof {
                    reveal_strlit("\n");
                    assert(out@ =~= out0.push('\n'));
                }
            } else if c2 == 'r' {
                out.append("\r");
                proof {
                    reveal_strlit("\r");
                    assert(out@ =~= out0.push('\r'));
                }
            } else {
                proof {
                    assert(spec_unescape(tail) is None);
                }
                return None;
            }
            proof {
                lemma_opt_prepend_shift(out0, unesc_code(c2), spec_unescape(s@.skip(i as int + 2)));
            }
            i = i + 2;
        } else if c == ' ' || c == '\n' || c == '\r' {
            proof {
                assert(spec_unescape(tail) is None);
            }
            return None;
        } else {
            let piece = s.substring_char(i, i + 1);
            proof {
                assert(piece@ =~= seq![c]);
            }
            out.append(piece);
            proof {
                assert(out@ =~= out0.push(c));
                lemma_opt_prepend_shift(out0, c, spec_unescape(s@.skip(i as int + 1)));
            }
            i = i + 1;
        }
    }
    proof {
        assert(s@.skip(n as int) =~= Seq::<char>::empty());
    }
    Some(out)
}

/// Every piece escaped.
pub open spec fn esc_all(s: Seq<Seq<char>>) -> Seq<Seq<char>> {
    s.map_values(|w: Seq<char>| spec_escape(w))
}

pub proof fn lemma_esc_all_take(s: Seq<Seq<char>>, i: int)
    requires
        0 <= i < s.len(),
    ensures
        esc_all(s.take(i + 1)) == esc_all(s.take(i)).push(spec_escape(s[i])),
{
    assert(esc_all(s.take(i + 1)) =~~= esc_all(s.take(i)).push(spec_escape(s[i]))) by {
        assert(forall|k: int| 0 <= k <= i ==> s.take(i + 1)[k] == s[k]);
        assert(forall|k: int| 0 <= k < i ==> s.take(i)[k] == s[k]);
    }
}

/// Joining pieces with a one-character separator string.
pub fn join_space(ps: &Vec<String>) -> (r: String)
    ensures
        r@ == spec_join(ps.deep_view(), ' '),
{
    proof {
        reveal_strlit(" ");
        assert(" "@ =~= seq![' ']);
    }
    join_strs(ps, ' ', " ")
}

pub fn join_lines(ps: &Vec<String>) -> (r: String)
    ensures
        r@ == spec_join(ps.deep_view(), '\n'),
{
    proof {
        reveal_strlit("\n");
        assert("\n"@ =~= seq!['\n']);
    }
    join_strs(ps, '\n', "\n")
}

/// A join of `c`-free pieces on a separator other than `c` is `c`-free.
pub proof fn lemma_join_free(ps: Seq<Seq<char>>, sep: char, c: char)
    requires
        c != sep,
        forall|i: int| 0 <= i < ps.len() ==> !seq_has_char(#[trigger] ps[i], c),
    ensures
        !seq_has_char(spec_join(ps, sep), c),
    decreases ps.len(),
{
    if ps.len() == 0 {
    } else if ps.len() == 1 {
        assert(!seq_has_char(ps[0], c));
    } else {
        lemma_join_free(ps.drop_first(), sep, c);
        let j = spec_join(ps, sep);
        let rest = spec_join(ps.drop_first(), sep);
        assert(forall|i: int|
            0 <= i < j.len() ==> j[i] == (if i < ps[0].len() {
                ps[0][i]
            } else if i == ps[0].len() {
                sep
            } else {
                rest[i - ps[0].len() - 1]
            }));
    }
}

/// A join whose first piece is non-empty is non-empty.
pub proof fn lemma_join_nonempty(ps: Seq<Seq<char>>, sep: char)
    requires
        ps.len() >= 1,
        ps[0].len() > 0,
    ensures
        spec_join(ps, sep).len() > 0,
{
    if ps.len() == 1 {
    } else {
        assert(spec_join(ps, sep).len() == ps[0].len() + 1 + spec_join(ps.drop_first(), sep).len());
    }
}

pub proof fn lemma_join_push(ps: Seq<Seq<char>>, p: Seq<char>, sep: char)
    ensures
        ps.len() == 0 ==> spec_join(ps.push(p), sep) == p,
        ps.len() >= 1 ==> spec_join(ps.push(p), sep) == spec_join(ps, sep) + seq![sep] + p,
    decreases ps.len(),
{
    if ps.len() == 0 {
        assert(spec_join(ps.push(p), sep) == ps.push(p)[0]);
        assert(ps.push(p)[0] == p);
    } else if ps.len() == 1 {
        assert(ps.push(p).drop_first() =~~= seq![p]);
        assert(spec_join(seq![p], sep) == p);
        assert(ps.push(p)[0] == ps[0]);
        assert(spec_join(ps.push(p), sep) == ps[0] + seq![sep] + p);
        assert(spec_join(ps, sep) == ps[0]);
    } else {
        assert(ps.push(p).drop_first() =~~= ps.drop_first().push(p));
        lemma_join_push(ps.drop_first(), p, sep);
    }
}

} // verus!
