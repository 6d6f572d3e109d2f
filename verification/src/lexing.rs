//! Character-level helpers shared by the input formats: whitespace trimming,
//! splitting on a separator and cutting a text into lines, each with a
//! specification over `Seq<char>`.
use vstd::prelude::*;

verus! {

/// Whether `c` has the Unicode `White_Space` property (the set that
/// `char::is_whitespace` and `str::trim` use).
pub open spec fn is_white_space(c: char) -> bool {
    let u = c as u32;
    ||| 0x9 <= u <= 0xd
    ||| u == 0x20
    ||| u == 0x85
    ||| u == 0xa0
    ||| u == 0x1680
    ||| 0x2000 <= u <= 0x200a
    ||| u == 0x2028
    ||| u == 0x2029
    ||| u == 0x202f
    ||| u == 0x205f
    ||| u == 0x3000
}

/// `s` without its leading white space.
pub open spec fn trim_start(s: Seq<char>) -> Seq<char>
    decreases s.len(),
{
    if s.len() > 0 && is_white_space(s[0]) {
        trim_start(s.drop_first())
    } else {
        s
    }
}

/// `s` without its trailing white space.
pub open spec fn trim_end(s: Seq<char>) -> Seq<char>
    decreases s.len(),
{
    if s.len() > 0 && is_white_space(s.last()) {
        trim_end(s.drop_last())
    } else {
        s
    }
}

/// `s` without leading and trailing white space.
pub open spec fn trim(s: Seq<char>) -> Seq<char> {
    trim_end(trim_start(s))
}

/// The pieces of `s` between occurrences of `sep`, in order; there is always
/// one more piece than there are separators, so `""` gives one empty piece.
pub open spec fn split(s: Seq<char>, sep: char) -> Seq<Seq<char>>
    decreases s.len(),
{
    if s.len() == 0 {
        seq![Seq::empty()]
    } else {
        let parts = split(s.drop_last(), sep);
        if s.last() == sep {
            parts.push(Seq::empty())
        } else {
            parts.update(parts.len() - 1, parts.last().push(s.last()))
        }
    }
}

/// `l` without one trailing carriage return, if it has one.
pub open spec fn strip_cr(l: Seq<char>) -> Seq<char> {
    if l.len() > 0 && l.last() == '\r' {
        l.drop_last()
    } else {
        l
    }
}

/// The lines of `s` as a buffered reader hands them out: the pieces between
/// line feeds, each that ended in a line feed without one carriage return
/// before it, and no empty piece after a final line feed.
pub open spec fn lines(s: Seq<char>) -> Seq<Seq<char>> {
    let parts = split(s, '\n');
    let ended = parts.drop_last().map_values(|p: Seq<char>| strip_cr(p));
    if parts.last().len() == 0 {
        ended
    } else {
        ended.push(parts.last())
    }
}

/// Whether every character of `s` is white space.
pub open spec fn all_white_space(s: Seq<char>) -> bool {
    forall|i: int| 0 <= i < s.len() ==> #[trigger] is_white_space(s[i])
}

proof fn lemma_trim_start_skips_white_prefix(w: Seq<char>, s: Seq<char>)
    requires
        all_white_space(w),
    ensures
        trim_start(w + s) == trim_start(s),
    decreases w.len(),
{
    if w.len() == 0 {
        assert(w + s =~= s);
    } else {
        assert((w + s)[0] == w[0]);
        assert((w + s).drop_first() =~= w.drop_first() + s);
        assert(is_white_space(w[0]));
        lemma_trim_start_skips_white_prefix(w.drop_first(), s);
    }
}

proof fn lemma_trim_end_skips_white_suffix(s: Seq<char>, w: Seq<char>)
    requires
        all_white_space(w),
    ensures
        trim_end(s + w) == trim_end(s),
    decreases w.len(),
{
    if w.len() == 0 {
        assert(s + w =~= s);
    } else {
        assert((s + w).last() == w.last());
        assert((s + w).drop_last() =~= s + w.drop_last());
        assert(is_white_space(w[w.len() - 1]));
        lemma_trim_end_skips_white_suffix(s, w.drop_last());
    }
}

proof fn lemma_trim_start_append(s: Seq<char>, w: Seq<char>)
    ensures
        trim_start(s + w) == (if all_white_space(s) {
            trim_start(w)
        } else {
            trim_start(s) + w
        }),
    decreases s.len(),
{
    if s.len() == 0 {
        assert(s + w =~= w);
    } else {
        assert((s + w)[0] == s[0]);
        assert((s + w).drop_first() =~= s.drop_first() + w);
        lemma_trim_start_append(s.drop_first(), w);
        if is_white_space(s[0]) {
            if all_white_space(s.drop_first()) {
                assert forall|i: int| 0 <= i < s.len() implies #[trigger] is_white_space(s[i]) by {
                    if i > 0 {
                        assert(s[i] == s.drop_first()[i - 1]);
                    }
                }
            } else {
                let j = choose|j: int| 0 <= j < s.drop_first().len() && !is_white_space(#[trigger] s.drop_first()[j]);
                assert(!is_white_space(s[j + 1]));
            }
        } else {
            assert(!is_white_space(s[0]));
        }
    }
}

proof fn lemma_trim_start_all_white(w: Seq<char>)
    requires
        all_white_space(w),
    ensures
        trim_start(w) == Seq::<char>::empty(),
{
    lemma_trim_start_skips_white_prefix(w, Seq::empty());
    assert(w + Seq::<char>::empty() =~= w);
}

/// White space before and after a text does not change the text that
/// trimming leaves.
pub proof fn lemma_trim_ignores_padding(before: Seq<char>, s: Seq<char>, after: Seq<char>)
    requires
        all_white_space(before),
        all_white_space(after),
    ensures
        trim(before + s + after) == trim(s),
{
    assert(before + s + after =~= before + (s + after));
    lemma_trim_start_skips_white_prefix(before, s + after);
    lemma_trim_start_append(s, after);
    if all_white_space(s) {
        lemma_trim_start_all_white(after);
        lemma_trim_start_all_white(s);
    } else {
        lemma_trim_end_skips_white_suffix(trim_start(s), after);
    }
}

/// The pieces of `parts` with `sep` between each two of them.
pub open spec fn join(parts: Seq<Seq<char>>, sep: char) -> Seq<char>
    decreases parts.len(),
{
    if parts.len() == 0 {
        Seq::empty()
    } else if parts.len() == 1 {
        parts[0]
    } else {
        join(parts.drop_last(), sep).push(sep) + parts.last()
    }
}

proof fn lemma_join_extend_last(parts: Seq<Seq<char>>, sep: char, c: char)
    requires
        parts.len() >= 1,
    ensures
        join(parts.update(parts.len() - 1, parts.last().push(c)), sep) == join(parts, sep).push(c),
{
    let q = parts.update(parts.len() - 1, parts.last().push(c));
    if parts.len() == 1 {
    } else {
        assert(q.drop_last() =~= parts.drop_last());
        assert(join(q, sep) =~= join(parts, sep).push(c));
    }
}

/// Joining the pieces of `s` with the separator they were cut at gives `s`
/// back.
pub proof fn law_join_split(s: Seq<char>, sep: char)
    ensures
        join(split(s, sep), sep) == s,
    decreases s.len(),
{
    if s.len() > 0 {
        let prev = s.drop_last();
        law_join_split(prev, sep);
        lemma_split_nonempty(prev, sep);
        let parts = split(prev, sep);
        if s.last() == sep {
            let q = parts.push(Seq::<char>::empty());
            assert(q.drop_last() =~= parts);
            assert(join(q, sep) =~= prev.push(sep));
        } else {
            lemma_join_extend_last(parts, sep, s.last());
        }
        assert(prev.push(s.last()) =~= s);
    }
}

proof fn lemma_split_without_sep(p: Seq<char>, sep: char)
    requires
        !p.contains(sep),
    ensures
        split(p, sep) == seq![p],
    decreases p.len(),
{
    if p.len() > 0 {
        let q = p.drop_last();
        assert(!q.contains(sep)) by {
            if q.contains(sep) {
                let i = choose|i: int| 0 <= i < q.len() && q[i] == sep;
                assert(p[i] == sep);
            }
        }
        lemma_split_without_sep(q, sep);
        assert(p.last() != sep) by {
            assert(p[p.len() - 1] == p.last());
        }
        assert(q.push(p.last()) =~= p);
        assert(seq![q].update(0, q.push(p.last())) =~= seq![p]);
    } else {
        assert(p =~= Seq::<char>::empty());
    }
}

proof fn lemma_split_after_sep(a: Seq<char>, b: Seq<char>, sep: char)
    requires
        !b.contains(sep),
    ensures
        split(a.push(sep) + b, sep) == split(a, sep).push(b),
    decreases b.len(),
{
    if b.len() == 0 {
        assert(b =~= Seq::<char>::empty());
        assert(a.push(sep) + b =~= a.push(sep));
        assert(a.push(sep).drop_last() =~= a);
        assert(a.push(sep).last() == sep);
    } else {
        let q = b.drop_last();
        assert(!q.contains(sep)) by {
            if q.contains(sep) {
                let i = choose|i: int| 0 <= i < q.len() && q[i] == sep;
                assert(b[i] == sep);
            }
        }
        lemma_split_after_sep(a, q, sep);
        let whole = a.push(sep) + b;
        assert(whole.drop_last() =~= a.push(sep) + q);
        assert(whole.last() == b.last());
        assert(b.last() != sep) by {
            assert(b[b.len() - 1] == b.last());
        }
        lemma_split_nonempty(a, sep);
        assert(q.push(b.last()) =~= b);
        assert(split(a, sep).push(q).update(split(a, sep).len() as int, q.push(b.last()))
            =~= split(a, sep).push(b));
        assert(q.push(b.last()) =~= b);
    }
}

/// Cutting the pieces joined with a separator that none of them holds gives
/// the pieces back.
pub proof fn law_split_join(parts: Seq<Seq<char>>, sep: char)
    requires
        parts.len() > 0,
        forall|k: int| 0 <= k < parts.len() ==> !(#[trigger] parts[k]).contains(sep),
    ensures
        split(join(parts, sep), sep) == parts,
    decreases parts.len(),
{
    if parts.len() == 1 {
        lemma_split_without_sep(parts[0], sep);
        assert(seq![parts[0]] =~= parts);
    } else {
        let q = parts.drop_last();
        assert forall|k: int| 0 <= k < q.len() implies !(#[trigger] q[k]).contains(sep) by {
            assert(q[k] == parts[k]);
        }
        law_split_join(q, sep);
        assert(!parts[parts.len() - 1].contains(sep));
        lemma_split_after_sep(join(q, sep), parts.last(), sep);
        assert(q.push(parts.last()) =~= parts);
    }
}

proof fn lemma_split_pieces_from_text(s: Seq<char>, sep: char)
    ensures
        forall|k: int, j: int|
            0 <= k < split(s, sep).len() && 0 <= j < split(s, sep)[k].len() ==> s.contains(
                #[trigger] split(s, sep)[k][j],
            ),
    decreases s.len(),
{
    if s.len() > 0 {
        let p = s.drop_last();
        lemma_split_pieces_from_text(p, sep);
        lemma_split_nonempty(p, sep);
        assert forall|k: int, j: int|
            0 <= k < split(s, sep).len() && 0 <= j < split(s, sep)[k].len() implies s.contains(
            #[trigger] split(s, sep)[k][j],
        ) by {
            let c = split(s, sep)[k][j];
            let parts = split(p, sep);
            if s.last() != sep && k == parts.len() - 1 && j == parts.last().len() {
                assert(c == s.last());
                assert(s[s.len() - 1] == c);
            } else {
                if s.last() != sep && k == parts.len() - 1 {
                    assert(c == parts[k][j]);
                } else {
                    assert(c == parts[k][j]);
                }
                assert(p.contains(c));
                let i = choose|i: int| 0 <= i < p.len() && p[i] == c;
                assert(s[i] == c);
            }
        }
    }
}

/// Joining the lines of a text without carriage returns with line feeds,
/// and adding back a final line feed where the text had one, gives the text:
/// cutting into lines drops, merges and reorders nothing.
pub proof fn law_lines_rejoin(s: Seq<char>)
    requires
        !s.contains('\r'),
    ensures
        join(lines(s), '\n') + (if s.len() > 0 && s.last() == '\n' {
            seq!['\n']
        } else {
            Seq::empty()
        }) == s,
{
    let parts = split(s, '\n');
    law_join_split(s, '\n');
    lemma_split_nonempty(s, '\n');
    lemma_split_pieces_from_text(s, '\n');
    let ended = parts.drop_last().map_values(|p: Seq<char>| strip_cr(p));
    assert forall|k: int| 0 <= k < parts.drop_last().len() implies #[trigger] ended[k]
        == parts.drop_last()[k] by {
        let q = parts[k];
        if q.len() > 0 && q.last() == '\r' {
            assert(s.contains(parts[k][q.len() - 1]));
        }
    }
    assert(ended =~= parts.drop_last());
    if s.len() == 0 {
        assert(lines(s) =~= Seq::<Seq<char>>::empty());
    } else if s.last() == '\n' {
        assert(parts == split(s.drop_last(), '\n').push(Seq::empty()));
        lemma_split_nonempty(s.drop_last(), '\n');
        assert(lines(s) == parts.drop_last());
        assert(join(parts, '\n') == join(parts.drop_last(), '\n').push('\n') + Seq::<char>::empty());
        assert(join(parts.drop_last(), '\n') + seq!['\n'] =~= join(parts.drop_last(), '\n').push('\n')
            + Seq::<char>::empty());
    } else {
        lemma_split_nonempty(s.drop_last(), '\n');
        assert(parts.last().len() > 0);
        assert(lines(s) =~= parts);
        assert(join(lines(s), '\n') + Seq::<char>::empty() =~= join(lines(s), '\n'));
    }
}

proof fn lemma_trim_start_shape(s: Seq<char>)
    ensures
        exists|i: int|
            0 <= i <= s.len() && trim_start(s) == s.skip(i) && all_white_space(#[trigger] s.take(i)),
        trim_start(s).len() > 0 ==> !is_white_space(trim_start(s)[0]),
    decreases s.len(),
{
    if s.len() > 0 && is_white_space(s[0]) {
        let t = s.drop_first();
        lemma_trim_start_shape(t);
        let i = choose|i: int|
            0 <= i <= t.len() && trim_start(t) == t.skip(i) && all_white_space(#[trigger] t.take(i));
        assert(s.skip(i + 1) =~= t.skip(i));
        assert forall|k: int| 0 <= k < s.take(i + 1).len() implies #[trigger] is_white_space(
            s.take(i + 1)[k],
        ) by {
            if k > 0 {
                assert(s.take(i + 1)[k] == t.take(i)[k - 1]);
            }
        }
        assert(trim_start(s) == s.skip(i + 1) && all_white_space(s.take(i + 1)));
    } else {
        assert(s.skip(0) =~= s);
        assert(trim_start(s) == s.skip(0) && all_white_space(s.take(0)));
    }
}

proof fn lemma_trim_end_shape(s: Seq<char>)
    ensures
        exists|j: int|
            0 <= j <= s.len() && trim_end(s) == s.take(j) && all_white_space(#[trigger] s.skip(j)),
        trim_end(s).len() > 0 ==> !is_white_space(trim_end(s).last()),
    decreases s.len(),
{
    if s.len() > 0 && is_white_space(s.last()) {
        let t = s.drop_last();
        lemma_trim_end_shape(t);
        let j = choose|j: int|
            0 <= j <= t.len() && trim_end(t) == t.take(j) && all_white_space(#[trigger] t.skip(j));
        assert(s.take(j) =~= t.take(j));
        assert forall|k: int| 0 <= k < s.skip(j).len() implies #[trigger] is_white_space(
            s.skip(j)[k],
        ) by {
            if k < t.skip(j).len() {
                assert(s.skip(j)[k] == t.skip(j)[k]);
            } else {
                assert(s.skip(j)[k] == s[s.len() - 1]);
            }
        }
        assert(trim_end(s) == s.take(j) && all_white_space(s.skip(j)));
    } else {
        assert(s.take(s.len() as int) =~= s);
        assert(trim_end(s) == s.take(s.len() as int) && all_white_space(s.skip(s.len() as int)));
    }
}

/// Trimming takes away white space at both ends and nothing else: what is
/// left is a contiguous piece of the text, everything before and after it is
/// white space, and it neither begins nor ends with white space.
pub proof fn law_trim_removes_only_white_space(s: Seq<char>)
    ensures
        exists|i: int, j: int|
            0 <= i <= j <= s.len() && trim(s) == s.subrange(i, j) && all_white_space(
                #[trigger] s.take(i),
            ) && all_white_space(#[trigger] s.skip(j)),
        trim(s).len() > 0 ==> !is_white_space(trim(s)[0]) && !is_white_space(trim(s).last()),
{
    lemma_trim_start_shape(s);
    let i = choose|i: int|
        0 <= i <= s.len() && trim_start(s) == s.skip(i) && all_white_space(#[trigger] s.take(i));
    let t = s.skip(i);
    lemma_trim_end_shape(t);
    let j = choose|j: int|
        0 <= j <= t.len() && trim_end(t) == t.take(j) && all_white_space(#[trigger] t.skip(j));
    assert(trim(s) =~= s.subrange(i, i + j));
    assert(s.skip(i + j) =~= t.skip(j));
    if trim(s).len() > 0 {
        assert(trim(s)[0] == trim_start(s)[0]);
    }
}

/// Cutting a text always gives at least one piece.
pub proof fn lemma_split_nonempty(s: Seq<char>, sep: char)
    ensures
        split(s, sep).len() >= 1,
    decreases s.len(),
{
    if s.len() > 0 {
        lemma_split_nonempty(s.drop_last(), sep);
    }
}

/// The characters of `s`, in order.
pub fn chars_of(s: &str) -> (res: Vec<char>)
    ensures
        res@ == s@,
{
    broadcast use vstd::string::group_string_axioms;

    let mut res: Vec<char> = Vec::new();
    for c in it: s.chars()
        invariant
            res@ == it.seq().take(it.index() as int),
            it.seq() == s@,
    {
        res.push(c);
    }
    res
}

/// Whether `c` is white space (see `is_white_space`).
pub fn char_is_white_space(c: char) -> (res: bool)
    ensures
        res == is_white_space(c),
{
    let u = c as u32;
    (0x9 <= u && u <= 0xd) || u == 0x20 || u == 0x85 || u == 0xa0 || u == 0x1680 || (0x2000 <= u
        && u <= 0x200a) || u == 0x2028 || u == 0x2029 || u == 0x202f || u == 0x205f || u == 0x3000
}

/// Whether `a` and `b` hold the same characters.
pub fn chars_equal(a: &[char], b: &[char]) -> (res: bool)
    ensures
        res == (a@ == b@),
{
    if a.len() != b.len() {
        return false;
    }
    let n = a.len();
    for i in 0..n
        invariant
            n == a@.len() == b@.len(),
            forall|j: int| 0 <= j < i ==> a@[j] == b@[j],
    {
        if a[i] != b[i] {
            return false;
        }
    }
    assert(a@ =~= b@);
    true
}

/// A copy of `cs[from..to]`.
pub fn copy_range(cs: &[char], from: usize, to: usize) -> (res: Vec<char>)
    requires
        from <= to <= cs@.len(),
    ensures
        res@ == cs@.subrange(from as int, to as int),
{
    let mut res: Vec<char> = Vec::new();
    let mut i = from;
    while i < to
        invariant
            from <= i <= to <= cs@.len(),
            res@ == cs@.subrange(from as int, i as int),
        decreases to - i,
    {
        res.push(cs[i]);
        i += 1;
    }
    res
}

/// `cs` without leading and trailing white space.
pub fn trim_chars(cs: &[char]) -> (res: Vec<char>)
    ensures
        res@ == trim(cs@),
{
    let n = cs.len();
    let mut i: usize = 0;
    assert(cs@.subrange(0, n as int) =~= cs@);
    while i < n && char_is_white_space(cs[i])
        invariant
            i <= n == cs@.len(),
            trim_start(cs@) == trim_start(cs@.subrange(i as int, n as int)),
        decreases n - i,
    {
        assert(cs@.subrange(i as int, n as int).drop_first() =~= cs@.subrange(i + 1, n as int));
        i += 1;
    }
    assert(trim_start(cs@) == cs@.subrange(i as int, n as int));
    let mut j: usize = n;
    while j > i && char_is_white_space(cs[j - 1])
        invariant
            i <= j <= n == cs@.len(),
            trim(cs@) == trim_end(cs@.subrange(i as int, j as int)),
        decreases j,
    {
        assert(cs@.subrange(i as int, j as int).drop_last() =~= cs@.subrange(i as int, j - 1));
        j -= 1;
    }
    assert(!(j > i && is_white_space(cs@[j - 1])));
    copy_range(cs, i, j)
}

/// The character sequences that a vector of character vectors holds.
pub open spec fn views(v: Seq<Vec<char>>) -> Seq<Seq<char>> {
    v.map_values(|x: Vec<char>| x@)
}

/// The pieces of `cs` between occurrences of `sep` (see `split`).
pub fn split_chars(cs: &[char], sep: char) -> (res: Vec<Vec<char>>)
    ensures
        views(res@) == split(cs@, sep),
{
    let n = cs.len();
    let mut parts: Vec<Vec<char>> = Vec::new();
    let mut cur: Vec<char> = Vec::new();
    assert(cs@.take(0) =~= Seq::<char>::empty());
    assert(views(parts@).push(cur@) =~= split(cs@.take(0), sep));
    for i in 0..n
        invariant
            n == cs@.len(),
            views(parts@).push(cur@) == split(cs@.take(i as int), sep),
    {
        let ghost before = views(parts@);
        assert(cs@.take(i + 1).drop_last() =~= cs@.take(i as int));
        assert(cs@.take(i + 1).last() == cs@[i as int]);
        if cs[i] == sep {
            let ghost cur_view = cur@;
            parts.push(cur);
            cur = Vec::new();
            assert(views(parts@) =~= before.push(cur_view));
        } else {
            cur.push(cs[i]);
            assert(views(parts@) =~= before);
            assert(views(parts@).push(cur@) =~= split(cs@.take(i + 1), sep));
        }
    }
    assert(cs@.take(n as int) =~= cs@);
    let ghost before = views(parts@);
    let ghost cur_view = cur@;
    parts.push(cur);
    assert(views(parts@) =~= before.push(cur_view));
    assert(views(parts@) =~= split(cs@, sep));
    parts
}

/// The lines of `cs` (see `lines`).
pub fn lines_of(cs: &[char]) -> (res: Vec<Vec<char>>)
    ensures
        views(res@) == lines(cs@),
{
    let parts = split_chars(cs, '\n');
    proof {
        lemma_split_nonempty(cs@, '\n');
    }
    let ghost ended = views(parts@).drop_last().map_values(|p: Seq<char>| strip_cr(p));
    let m = parts.len() - 1;
    let mut res: Vec<Vec<char>> = Vec::new();
    for i in 0..m
        invariant
            m + 1 == parts@.len(),
            views(parts@) == split(cs@, '\n'),
            ended == views(parts@).drop_last().map_values(|p: Seq<char>| strip_cr(p)),
            views(res@) == ended.take(i as int),
    {
        let p = &parts[i];
        let k = p.len();
        let ghost before = res@;
        assert(p@ == views(parts@)[i as int]);
        let piece = if k > 0 && p[k - 1] == '\r' {
            copy_range(p, 0, k - 1)
        } else {
            copy_range(p, 0, k)
        };
        assert(piece@ =~= strip_cr(p@));
        let ghost pv = piece@;
        res.push(piece);
        assert(views(res@) =~= views(before).push(pv));
        assert(ended[i as int] == strip_cr(views(parts@)[i as int]));
        assert(views(res@) =~= ended.take(i + 1));
    }
    assert(ended.take(m as int) =~= ended);
    let last = &parts[m];
    assert(last@ == views(parts@).last());
    if last.len() > 0 {
        let piece = copy_range(last, 0, last.len());
        let ghost before = res@;
        let ghost pv = piece@;
        res.push(piece);
        assert(pv =~= last@);
        assert(views(res@) =~= views(before).push(pv));
        assert(views(res@) =~= ended.push(last@));
    }
    res
}

/// Calls `String::push`; the contract claims that the string afterwards is
/// the string before followed by `c`.
#[verifier::external_body]
fn push_char(s: &mut String, c: char)
    ensures
        final(s)@ == old(s)@.push(c),
{
    s.push(c);
}

/// A string holding the characters of `cs`.
pub fn string_from_chars(cs: &[char]) -> (res: String)
    ensures
        res@ == cs@,
{
    let mut res = String::new();
    let n = cs.len();
    for i in 0..n
        invariant
            n == cs@.len(),
            res@ == cs@.take(i as int),
    {
        push_char(&mut res, cs[i]);
        assert(res@ =~= cs@.take(i + 1));
    }
    assert(cs@.take(n as int) =~= cs@);
    res
}

} // verus!
