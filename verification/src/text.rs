//! Text handling on character sequences: splitting into pieces, lines and
//! tokens, substring search, ASCII case folding and decimal parsing.
use vstd::prelude::*;
use vstd::string::*;

verus! {

broadcast use vstd::string::group_string_axioms;

/// The views of a sequence of strings.
pub open spec fn views(v: Seq<String>) -> Seq<Seq<char>> {
    v.map_values(|x: String| x@)
}

/// A separator between the pieces of a text.
#[derive(Clone, Copy, Debug, PartialEq, Eq, Structural)]
pub enum Sep {
    /// One given character.
    Char(char),
    /// Any ASCII whitespace character, as `char::is_ascii_whitespace` defines it.
    AsciiWhitespace,
}

/// ASCII whitespace: space, tab, line feed, form feed and carriage return.
pub open spec fn is_ascii_ws(c: char) -> bool {
    c == ' ' || c == '\t' || c == '\n' || c == '\x0C' || c == '\r'
}

pub open spec fn separates(sep: Sep, c: char) -> bool {
    match sep {
        Sep::Char(x) => c == x,
        Sep::AsciiWhitespace => is_ascii_ws(c),
    }
}

impl Sep {
    pub fn separates(&self, c: char) -> (b: bool)
        ensures
            b == separates(*self, c),
    {
        match self {
            Sep::Char(x) => c == *x,
            Sep::AsciiWhitespace => c == ' ' || c == '\t' || c == '\n' || c == '\x0C' || c == '\r',
        }
    }
}

/// `s` cut at every separator: empty pieces included, and always at least one piece.
pub open spec fn split_with(s: Seq<char>, sep: Sep) -> Seq<Seq<char>>
    decreases s.len(),
{
    if s.len() == 0 {
        seq![Seq::<char>::empty()]
    } else {
        let r = split_with(s.drop_last(), sep);
        if separates(sep, s.last()) {
            r.push(Seq::<char>::empty())
        } else {
            r.update(r.len() - 1, r.last().push(s.last()))
        }
    }
}

/// `s` split at every occurrence of `c`, as `str::split` with a character does.
pub open spec fn split_on(s: Seq<char>, c: char) -> Seq<Seq<char>> {
    split_with(s, Sep::Char(c))
}

/// The tokens of `s`, as `str::split_ascii_whitespace` yields them.
pub open spec fn ascii_tokens(s: Seq<char>) -> Seq<Seq<char>> {
    nonempty(split_with(s, Sep::AsciiWhitespace))
}

/// The non-empty members of `pieces`, in order.
pub open spec fn nonempty(pieces: Seq<Seq<char>>) -> Seq<Seq<char>>
    decreases pieces.len(),
{
    if pieces.len() == 0 {
        Seq::empty()
    } else if pieces.last().len() == 0 {
        nonempty(pieces.drop_last())
    } else {
        nonempty(pieces.drop_last()).push(pieces.last())
    }
}

/// A line without the carriage return that ends it, if any.
pub open spec fn strip_cr(line: Seq<char>) -> Seq<char> {
    if line.len() > 0 && line.last() == '\r' {
        line.drop_last()
    } else {
        line
    }
}

/// The lines of `s`, as `str::lines` yields them: cut at each `'\n'`, a `'\r'`
/// just before that `'\n'` removed, and no empty line after a final `'\n'`.
pub open spec fn str_lines(s: Seq<char>) -> Seq<Seq<char>> {
    let pieces = split_on(s, '\n');
    let body = pieces.drop_last().map_values(|p: Seq<char>| strip_cr(p));
    if pieces.last().len() == 0 {
        body
    } else {
        body.push(pieces.last())
    }
}

pub proof fn lemma_split_with_len(s: Seq<char>, sep: Sep)
    ensures
        split_with(s, sep).len() >= 1,
    decreases s.len(),
{
    if s.len() > 0 {
        lemma_split_with_len(s.drop_last(), sep);
    }
}

/// Every piece is free of separators.
pub proof fn lemma_split_with_pieces(s: Seq<char>, sep: Sep)
    ensures
        forall|k: int, j: int|
            0 <= k < split_with(s, sep).len() && 0 <= j < split_with(s, sep)[k].len()
                ==> !separates(sep, #[trigger] split_with(s, sep)[k][j]),
    decreases s.len(),
{
    if s.len() > 0 {
        lemma_split_with_pieces(s.drop_last(), sep);
        lemma_split_with_len(s.drop_last(), sep);
        let r = split_with(s.drop_last(), sep);
        if !separates(sep, s.last()) {
            assert forall|k: int, j: int|
                0 <= k < split_with(s, sep).len() && 0 <= j < split_with(s, sep)[k].len()
                    implies !separates(sep, #[trigger] split_with(s, sep)[k][j]) by {
                if k == r.len() - 1 {
                    if j < r.last().len() {
                        assert(split_with(s, sep)[k][j] == r[k][j]);
                    }
                } else {
                    assert(split_with(s, sep)[k] == r[k]);
                }
            }
        } else {
            assert forall|k: int, j: int|
                0 <= k < split_with(s, sep).len() && 0 <= j < split_with(s, sep)[k].len()
                    implies !separates(sep, #[trigger] split_with(s, sep)[k][j]) by {
                assert(split_with(s, sep)[k] == r[k]);
            }
        }
    }
}

/// The pieces `ls` written one after the other, with `c` between each two.
pub open spec fn join_on(ls: Seq<Seq<char>>, c: char) -> Seq<char>
    decreases ls.len(),
{
    if ls.len() == 0 {
        Seq::empty()
    } else if ls.len() == 1 {
        ls[0]
    } else {
        join_on(ls.drop_last(), c) + seq![c] + ls.last()
    }
}

/// Law: cutting `s` at every `c` and writing the pieces back with `c`
/// between each two gives `s` again, and no piece holds `c`; so the pieces
/// are all of `s` and there is one more of them than there are `c` in it.
pub proof fn law_split_then_join(s: Seq<char>, c: char)
    ensures
        join_on(split_on(s, c), c) == s,
        forall|k: int, j: int|
            0 <= k < split_on(s, c).len() && 0 <= j < split_on(s, c)[k].len() ==> #[trigger] split_on(
                s,
                c,
            )[k][j] != c,
    decreases s.len(),
{
    lemma_split_with_pieces(s, Sep::Char(c));
    if s.len() == 0 {
        assert(split_on(s, c) =~= seq![Seq::<char>::empty()]);
        assert(join_on(seq![Seq::<char>::empty()], c) == Seq::<char>::empty());
        assert(s =~= Seq::<char>::empty());
    } else {
        let init = s.drop_last();
        law_split_then_join(init, c);
        lemma_split_with_len(init, Sep::Char(c));
        let r = split_on(init, c);
        if s.last() == c {
            let r2 = r.push(Seq::<char>::empty());
            assert(split_on(s, c) == r2);
            assert(r2.drop_last() =~= r);
            assert(join_on(r2, c) == join_on(r, c) + seq![c] + Seq::<char>::empty());
            assert(init + seq![c] + Seq::<char>::empty() =~= s);
        } else {
            let x = s.last();
            let r2 = r.update(r.len() - 1, r.last().push(x));
            assert(split_on(s, c) == r2);
            if r.len() == 1 {
                assert(join_on(r, c) == r[0]);
                assert(join_on(r2, c) == r2[0]);
                assert(r2[0] == r[0].push(x));
                assert(init.push(x) =~= s);
            } else {
                assert(r2.drop_last() =~= r.drop_last());
                assert(join_on(r, c) == join_on(r.drop_last(), c) + seq![c] + r.last());
                assert(join_on(r2, c) == join_on(r2.drop_last(), c) + seq![c] + r2.last());
                assert(r2.last() == r.last().push(x));
                assert(join_on(r2, c) =~= join_on(r, c).push(x));
                assert(init.push(x) =~= s);
            }
        }
    }
}

/// The lines `ls` written one after the other, with a `'\n'` between each two.
pub open spec fn join_lines(ls: Seq<Seq<char>>) -> Seq<char>
    decreases ls.len(),
{
    if ls.len() == 0 {
        Seq::empty()
    } else if ls.len() == 1 {
        ls[0]
    } else {
        join_lines(ls.drop_last()) + seq!['\n'] + ls.last()
    }
}

/// Appending text without the separator extends the last piece.
pub proof fn lemma_split_append_plain(pre: Seq<char>, b: Seq<char>, sep: char)
    requires
        !b.contains(sep),
    ensures
        split_on(pre + b, sep) == split_on(pre, sep).update(
            split_on(pre, sep).len() - 1,
            split_on(pre, sep).last() + b,
        ),
    decreases b.len(),
{
    lemma_split_with_len(pre, Sep::Char(sep));
    if b.len() == 0 {
        assert(pre + b =~= pre);
        assert(split_on(pre, sep).last() + b =~= split_on(pre, sep).last());
        assert(split_on(pre, sep).update(split_on(pre, sep).len() - 1, split_on(pre, sep).last())
            =~= split_on(pre, sep));
    } else {
        let b0 = b.drop_last();
        assert(!b0.contains(sep)) by {
            if b0.contains(sep) {
                let j = choose|j: int| 0 <= j < b0.len() && b0[j] == sep;
                assert(b[j] == sep);
            }
        }
        assert(b.last() != sep) by {
            assert(b[b.len() - 1] == b.last());
        }
        lemma_split_append_plain(pre, b0, sep);
        let s = pre + b;
        assert(s.drop_last() =~= pre + b0);
        assert(s.last() == b.last());
        let r0 = split_on(pre, sep);
        let r = split_on(pre + b0, sep);
        assert(r == r0.update(r0.len() - 1, r0.last() + b0));
        assert(r.len() == r0.len());
        assert(r.last() == r0.last() + b0);
        assert(r.last().push(b.last()) =~= r0.last() + b);
        assert(split_on(s, sep) == r.update(r.len() - 1, r.last().push(b.last())));
        assert(split_on(s, sep) =~= r0.update(r0.len() - 1, r0.last() + b));
    }
}

/// Lines without `'\n'`, joined by `'\n'`, split back into the same lines.
pub proof fn lemma_split_join(ls: Seq<Seq<char>>)
    requires
        ls.len() >= 1,
        forall|i: int| 0 <= i < ls.len() ==> !(#[trigger] ls[i]).contains('\n'),
    ensures
        split_on(join_lines(ls), '\n') == ls,
    decreases ls.len(),
{
    if ls.len() == 1 {
        lemma_split_append_plain(Seq::empty(), ls[0], '\n');
        assert(Seq::<char>::empty() + ls[0] =~= ls[0]);
        assert(split_on(Seq::<char>::empty(), '\n').last() + ls[0] =~= ls[0]);
        assert(split_on(join_lines(ls), '\n') =~= ls);
    } else {
        let init = ls.drop_last();
        assert(forall|i: int| 0 <= i < init.len() ==> init[i] == ls[i]);
        lemma_split_join(init);
        let pre = join_lines(init) + seq!['\n'];
        assert(pre.drop_last() =~= join_lines(init));
        assert(pre.last() == '\n');
        assert(split_on(pre, '\n') == init.push(Seq::<char>::empty()));
        assert(!ls.last().contains('\n')) by {
            assert(ls[ls.len() - 1] == ls.last());
        }
        lemma_split_append_plain(pre, ls.last(), '\n');
        assert(Seq::<char>::empty() + ls.last() =~= ls.last());
        assert(split_on(join_lines(ls), '\n') =~= ls);
    }
}

/// Law: the non-empty pieces are exactly the pieces that are not empty, in
/// their order.
pub proof fn law_nonempty_filters(pieces: Seq<Seq<char>>)
    ensures
        nonempty(pieces) == pieces.filter(|p: Seq<char>| p.len() > 0),
    decreases pieces.len(),
{
    reveal(Seq::filter);
    if pieces.len() > 0 {
        law_nonempty_filters(pieces.drop_last());
    }
}

/// A sequence of non-empty pieces keeps all of them.
pub proof fn lemma_nonempty_keeps(ls: Seq<Seq<char>>)
    requires
        forall|i: int| 0 <= i < ls.len() ==> (#[trigger] ls[i]).len() > 0,
    ensures
        nonempty(ls) == ls,
    decreases ls.len(),
{
    if ls.len() > 0 {
        assert(ls.last() == ls[ls.len() - 1]);
        let init = ls.drop_last();
        assert(forall|i: int| 0 <= i < init.len() ==> init[i] == ls[i]);
        lemma_nonempty_keeps(init);
        assert(init.push(ls.last()) =~= ls);
    } else {
        assert(ls =~= Seq::empty());
    }
}

/// Law: writing non-empty lines without `'\n'` one per line and taking the
/// non-empty lines of the result gives back the same lines. So each device
/// that a listing command prints on a line of its own is one device of the
/// listing.
pub proof fn law_nonempty_lines_of_joined(ls: Seq<Seq<char>>)
    requires
        forall|i: int| 0 <= i < ls.len() ==> (#[trigger] ls[i]).len() > 0 && !ls[i].contains('\n'),
    ensures
        nonempty(split_on(join_lines(ls), '\n')) == ls,
{
    if ls.len() == 0 {
        assert(split_on(join_lines(ls), '\n') == seq![Seq::<char>::empty()]);
        assert(seq![Seq::<char>::empty()].drop_last() =~= Seq::<Seq<char>>::empty());
        assert(nonempty(seq![Seq::<char>::empty()]) == nonempty(Seq::<Seq<char>>::empty()));
        assert(ls =~= Seq::empty());
    } else {
        lemma_split_join(ls);
        lemma_nonempty_keeps(ls);
    }
}

/// Law: no piece holds a separator; in particular no token holds ASCII
/// whitespace and no line cut at `'\n'` holds a `'\n'`.
pub proof fn law_pieces_free_of_separator(s: Seq<char>, sep: Sep)
    ensures
        forall|k: int, j: int|
            0 <= k < split_with(s, sep).len() && 0 <= j < split_with(s, sep)[k].len()
                ==> !separates(sep, #[trigger] split_with(s, sep)[k][j]),
{
    lemma_split_with_pieces(s, sep);
}

/// The characters of `s`, in order.
pub fn chars_of(s: &str) -> (v: Vec<char>)
    ensures
        v@ == s@,
{
    let mut v: Vec<char> = Vec::new();
    for c in it: s.chars()
        invariant
            it.seq() == s@,
            v@ == it.seq().take(it.index()),
    {
        v.push(c);
    }
    v
}

/// The piece of `s` from character `start` up to character `end`, as a `String`.
pub fn piece_of(s: &str, start: usize, end: usize) -> (p: String)
    requires
        start <= end <= s@.len(),
    ensures
        p@ == s@.subrange(start as int, end as int),
{
    String::from_str(s.substring_char(start, end))
}

/// `s` cut at every separator, as `str::split` does.
pub fn pieces(s: &str, sep: Sep) -> (out: Vec<String>)
    ensures
        views(out@) == split_with(s@, sep),
{
    let cs = chars_of(s);
    let n = cs.len();
    let mut out: Vec<String> = Vec::new();
    let mut start: usize = 0;
    let mut i: usize = 0;
    while i < n
        invariant
            n == cs@.len(),
            cs@ == s@,
            start <= i <= n,
            split_with(s@.take(i as int), sep).last() == s@.subrange(start as int, i as int),
            views(out@) == split_with(s@.take(i as int), sep).drop_last(),
        decreases n - i,
    {
        proof { lemma_split_with_len(s@.take(i as int), sep); }
        let c = cs[i];
        let ghost prev = split_with(s@.take(i as int), sep);
        let ghost old_views = views(out@);
        let ghost t = s@.take(i + 1);
        assert(t.drop_last() =~= s@.take(i as int));
        assert(t.last() == c);
        if sep.separates(c) {
            let piece = piece_of(s, start, i);
            out.push(piece);
            assert(views(out@) =~= old_views.push(prev.last()));
            start = i + 1;
            assert(split_with(t, sep) == prev.push(Seq::<char>::empty()));
            assert(split_with(t, sep).drop_last() =~= prev);
            assert(s@.subrange(start as int, i + 1) =~= Seq::<char>::empty());
        } else {
            assert(split_with(t, sep) == prev.update(prev.len() - 1, prev.last().push(c)));
            assert(split_with(t, sep).drop_last() =~= prev.drop_last());
            assert(s@.subrange(start as int, i + 1) =~= prev.last().push(c));
        }
        i = i + 1;
    }
    proof { lemma_split_with_len(s@, sep); }
    assert(s@.take(n as int) =~= s@);
    let ghost old_views = views(out@);
    out.push(piece_of(s, start, n));
    assert(views(out@) =~= old_views.push(s@.subrange(start as int, n as int)));
    out
}

/// The non-empty members of `v`, in order.
pub fn keep_nonempty(v: Vec<String>) -> (out: Vec<String>)
    ensures
        views(out@) == nonempty(views(v@)),
{
    let mut out: Vec<String> = Vec::new();
    let n = v.len();
    let mut i: usize = 0;
    while i < n
        invariant
            n == v@.len(),
            i <= n,
            views(out@) == nonempty(views(v@).take(i as int)),
        decreases n - i,
    {
        let ghost old_views = views(out@);
        assert(views(v@).take(i + 1).drop_last() =~= views(v@).take(i as int));
        assert(views(v@).take(i + 1).last() == v@[i as int]@);
        if !v[i].as_str().is_empty() {
            out.push(v[i].clone());
            assert(views(out@) =~= old_views.push(v@[i as int]@));
        }
        i = i + 1;
    }
    assert(views(v@).take(n as int) =~= views(v@));
    out
}

/// The non-empty pieces of `s` between separators.
pub fn nonempty_pieces(s: &str, sep: Sep) -> (out: Vec<String>)
    ensures
        views(out@) == nonempty(split_with(s@, sep)),
{
    keep_nonempty(pieces(s, sep))
}

/// The tokens of `s`, as `str::split_ascii_whitespace` yields them.
pub fn tokens(s: &str) -> (out: Vec<String>)
    ensures
        views(out@) == ascii_tokens(s@),
{
    nonempty_pieces(s, Sep::AsciiWhitespace)
}

/// The lines of `s`, as `str::lines` yields them.
pub fn lines_of(s: &str) -> (out: Vec<String>)
    ensures
        views(out@) == str_lines(s@),
{
    let all = pieces(s, Sep::Char('\n'));
    let n = all.len();
    proof { lemma_split_with_len(s@, Sep::Char('\n')); }
    let ghost ps = split_with(s@, Sep::Char('\n'));
    let ghost body = ps.drop_last().map_values(|p: Seq<char>| strip_cr(p));
    let mut out: Vec<String> = Vec::new();
    let mut i: usize = 0;
    while i + 1 < n
        invariant
            n == all@.len() == ps.len(),
            n >= 1,
            views(all@) == ps,
            body == ps.drop_last().map_values(|p: Seq<char>| strip_cr(p)),
            i + 1 <= n,
            views(out@) == body.take(i as int),
        decreases n - i,
    {
        let p = &all[i];
        let ghost pv = p@;
        assert(pv == ps[i as int]);
        let len = p.unicode_len();
        let stripped = if len > 0 && p.as_str().get_char(len - 1) == '\r' {
            piece_of(p.as_str(), 0, len - 1)
        } else {
            p.clone()
        };
        assert(pv.subrange(0, pv.len() - 1) =~= pv.drop_last());
        assert(stripped@ == strip_cr(pv));
        let ghost old_views = views(out@);
        out.push(stripped);
        assert(views(out@) =~= old_views.push(strip_cr(pv)));
        assert(body.take(i + 1) =~= body.take(i as int).push(strip_cr(pv)));
        i = i + 1;
    }
    assert(body.take(i as int) =~= body);
    let last = &all[n - 1];
    if !last.as_str().is_empty() {
        let ghost old_views = views(out@);
        out.push(last.clone());
        assert(views(out@) =~= old_views.push(ps.last()));
    }
    out
}

/// Whether `needle` occurs in `hay` at position `i`.
pub open spec fn occurs_at(hay: Seq<char>, needle: Seq<char>, i: int) -> bool {
    0 <= i && i + needle.len() <= hay.len() && hay.subrange(i, i + needle.len()) == needle
}

/// Whether `needle` occurs in `hay`, as `str::contains` with a string decides it.
pub open spec fn contains_text(hay: Seq<char>, needle: Seq<char>) -> bool {
    exists|i: int| occurs_at(hay, needle, i)
}

/// Whether `needle` occurs in `hay`.
pub fn contains_str(hay: &str, needle: &str) -> (b: bool)
    ensures
        b == contains_text(hay@, needle@),
{
    let h = chars_of(hay);
    let nd = chars_of(needle);
    let hn = h.len();
    let nn = nd.len();
    if nn > hn {
        assert forall|i: int| !occurs_at(hay@, needle@, i) by {}
        return false;
    }
    let mut i: usize = 0;
    while i <= hn - nn
        invariant
            h@ == hay@,
            nd@ == needle@,
            hn == h@.len(),
            nn == nd@.len(),
            nn <= hn,
            i <= hn - nn + 1,
            forall|k: int| 0 <= k < i ==> !occurs_at(hay@, needle@, k),
        decreases hn - i,
    {
        let mut j: usize = 0;
        let mut same = true;
        while j < nn
            invariant
                h@ == hay@,
                nd@ == needle@,
                hn == h@.len(),
                nn == nd@.len(),
                i + nn <= hn,
                j <= nn,
                same == (forall|k: int| 0 <= k < j ==> h@[i + k] == nd@[k]),
            decreases nn - j,
        {
            if h[i + j] != nd[j] {
                same = false;
            }
            j = j + 1;
        }
        if same {
            assert(hay@.subrange(i as int, i + nn) =~= needle@);
            assert(occurs_at(hay@, needle@, i as int));
            return true;
        }
        assert(!occurs_at(hay@, needle@, i as int)) by {
            if hay@.subrange(i as int, i + nn) == needle@ {
                assert forall|k: int| 0 <= k < nn implies h@[i + k] == nd@[k] by {
                    assert(hay@.subrange(i as int, i + nn)[k] == hay@[i + k]);
                }
            }
        }
        i = i + 1;
    }
    assert forall|k: int| !occurs_at(hay@, needle@, k) by {
        if 0 <= k < i {
        }
    }
    false
}

/// The code of `c` with the ASCII capital letters mapped to small ones.
pub open spec fn ascii_fold(c: char) -> u32 {
    if 'A' <= c <= 'Z' {
        (c as u32 + 32) as u32
    } else {
        c as u32
    }
}

/// Whether `a` and `b` agree up to ASCII case, as `str::eq_ignore_ascii_case` decides it.
pub open spec fn eq_ignore_case(a: Seq<char>, b: Seq<char>) -> bool {
    a.len() == b.len() && forall|i: int| 0 <= i < a.len() ==> ascii_fold(a[i]) == ascii_fold(b[i])
}

fn fold_char(c: char) -> (r: u32)
    ensures
        r == ascii_fold(c),
{
    if 'A' <= c && c <= 'Z' {
        c as u32 + 32
    } else {
        c as u32
    }
}

/// Whether `a` and `b` agree up to ASCII case.
pub fn eq_ignore_ascii_case(a: &str, b: &str) -> (r: bool)
    ensures
        r == eq_ignore_case(a@, b@),
{
    let x = chars_of(a);
    let y = chars_of(b);
    if x.len() != y.len() {
        return false;
    }
    let n = x.len();
    let mut i: usize = 0;
    while i < n
        invariant
            x@ == a@,
            y@ == b@,
            n == x@.len() == y@.len(),
            i <= n,
            forall|k: int| 0 <= k < i ==> ascii_fold(a@[k]) == ascii_fold(b@[k]),
        decreases n - i,
    {
        if fold_char(x[i]) != fold_char(y[i]) {
            return false;
        }
        i = i + 1;
    }
    true
}

/// Law: agreeing up to ASCII case is an equivalence: every text agrees with
/// itself, and agreement goes both ways and carries over.
pub proof fn law_ignore_case_equivalence(a: Seq<char>, b: Seq<char>, c: Seq<char>)
    ensures
        eq_ignore_case(a, a),
        eq_ignore_case(a, b) ==> eq_ignore_case(b, a),
        eq_ignore_case(a, b) && eq_ignore_case(b, c) ==> eq_ignore_case(a, c),
{
}

/// `s` with every occurrence of `c` left out.
pub open spec fn without(s: Seq<char>, c: char) -> Seq<char>
    decreases s.len(),
{
    if s.len() == 0 {
        s
    } else if s.last() == c {
        without(s.drop_last(), c)
    } else {
        without(s.drop_last(), c).push(s.last())
    }
}

/// Law: leaving out `c` keeps every other character of `s`, in order.
pub proof fn law_without_keeps_the_rest(s: Seq<char>, c: char)
    ensures
        without(s, c) == s.filter(|x: char| x != c),
    decreases s.len(),
{
    reveal(Seq::filter);
    if s.len() > 0 {
        law_without_keeps_the_rest(s.drop_last(), c);
    }
}

/// `s` with every occurrence of `c` left out, as `str::replace(c, "")` gives it.
pub fn remove_char(s: &str, c: char) -> (r: String)
    ensures
        r@ == without(s@, c),
{
    let cs = chars_of(s);
    let n = cs.len();
    let mut r = String::new();
    let mut i: usize = 0;
    while i < n
        invariant
            cs@ == s@,
            n == cs@.len(),
            i <= n,
            r@ == without(s@.take(i as int), c),
        decreases n - i,
    {
        assert(s@.take(i + 1).drop_last() =~= s@.take(i as int));
        if cs[i] != c {
            r.append(s.substring_char(i, i + 1));
            assert(s@.subrange(i as int, i + 1) =~= seq![cs@[i as int]]);
        }
        i = i + 1;
    }
    assert(s@.take(n as int) =~= s@);
    r
}

/// The number that the decimal digits `d` stand for.
pub open spec fn digits_value(d: Seq<char>) -> nat
    decreases d.len(),
{
    if d.len() == 0 {
        0
    } else {
        digits_value(d.drop_last()) * 10 + ((d.last() as u32) - ('0' as u32)) as nat
    }
}

pub open spec fn is_digit(c: char) -> bool {
    '0' <= c <= '9'
}

/// `s` without a leading `'+'`.
pub open spec fn unsigned_digits(s: Seq<char>) -> Seq<char> {
    if s.len() > 0 && s[0] == '+' {
        s.drop_first()
    } else {
        s
    }
}

/// What `str::parse::<u64>` gives: an optional `'+'`, then one or more decimal
/// digits whose value fits in a `u64`; `None` for anything else.
pub open spec fn parse_u64_spec(s: Seq<char>) -> Option<u64> {
    let d = unsigned_digits(s);
    if d.len() > 0 && (forall|i: int| 0 <= i < d.len() ==> is_digit(d[i])) && digits_value(d)
        <= u64::MAX {
        Some(digits_value(d) as u64)
    } else {
        None
    }
}

/// Parses a decimal `u64` as `str::parse::<u64>` does.
pub fn parse_u64(s: &str) -> (r: Option<u64>)
    ensures
        r == parse_u64_spec(s@),
{
    let cs = chars_of(s);
    let n = cs.len();
    let first: usize = if n > 0 && cs[0] == '+' { 1 } else { 0 };
    let ghost d = unsigned_digits(s@);
    assert(d =~= s@.subrange(first as int, n as int));
    if first >= n {
        return None;
    }
    let mut value: u64 = 0;
    let mut overflow = false;
    let mut i: usize = first;
    while i < n
        invariant
            cs@ == s@,
            n == cs@.len(),
            first <= i <= n,
            d == s@.subrange(first as int, n as int),
            d == unsigned_digits(s@),
            forall|k: int| first <= k < i ==> is_digit(s@[k]),
            !overflow ==> value == digits_value(s@.subrange(first as int, i as int)),
            overflow ==> digits_value(s@.subrange(first as int, i as int)) > u64::MAX,
        decreases n - i,
    {
        let c = cs[i];
        if !('0' <= c && c <= '9') {
            assert(d[i - first] == c);
            assert(!is_digit(d[i - first]));
            assert(!(forall|k: int| 0 <= k < d.len() ==> is_digit(d[k])));
            return None;
        }
        let digit: u64 = (c as u32 - '0' as u32) as u64;
        let ghost prev = s@.subrange(first as int, i as int);
        let ghost next = s@.subrange(first as int, i + 1);
        assert(next.drop_last() =~= prev);
        assert(next.last() == c);
        assert(digits_value(next) == digits_value(prev) * 10 + digit);
        if !overflow {
            if value > (u64::MAX - digit) / 10 {
                overflow = true;
                assert(digits_value(next) > u64::MAX) by (nonlinear_arith)
                    requires
                        digits_value(next) == value * 10 + digit,
                        value > (u64::MAX - digit) / 10,
                        digit <= 9,
                ;
            } else {
                assert(value * 10 + digit <= u64::MAX) by (nonlinear_arith)
                    requires
                        value <= (u64::MAX - digit) / 10,
                        digit <= 9,
                ;
                value = value * 10 + digit;
            }
        } else {
            assert(digits_value(next) > u64::MAX) by (nonlinear_arith)
                requires
                    digits_value(next) == digits_value(prev) * 10 + digit,
                    digits_value(prev) > u64::MAX,
            ;
        }
        i = i + 1;
    }
    assert(forall|k: int| 0 <= k < d.len() ==> d[k] == s@[k + first]);
    if overflow {
        None
    } else {
        Some(value)
    }
}

/// Whether `v` holds a string equal to `s`.
pub fn contains_string(v: &Vec<String>, s: &str) -> (b: bool)
    ensures
        b == views(v@).contains(s@),
{
    let target = String::from_str(s);
    let n = v.len();
    let mut i: usize = 0;
    while i < n
        invariant
            n == v@.len(),
            i <= n,
            target@ == s@,
            forall|k: int| 0 <= k < i ==> v@[k]@ != s@,
        decreases n - i,
    {
        if v[i] == target {
            assert(views(v@)[i as int] == s@);
            return true;
        }
        i = i + 1;
    }
    assert forall|k: int| 0 <= k < views(v@).len() implies views(v@)[k] != s@ by {
        assert(views(v@)[k] == v@[k]@);
    }
    false
}

} // verus!
