use vstd::prelude::*;
use vstd::string::{StrSliceExecFns, StringExecFns};

verus! {

/// The pieces of `s` between occurrences of `sep`, left to right; there is
/// always one more piece than there are separators.
pub open spec fn split_on(s: Seq<char>, sep: char) -> Seq<Seq<char>>
    decreases s.len(),
{
    if s.len() == 0 {
        seq![Seq::<char>::empty()]
    } else {
        let before = split_on(s.drop_last(), sep);
        if s.last() == sep {
            before.push(Seq::<char>::empty())
        } else {
            before.update(before.len() - 1, before.last().push(s.last()))
        }
    }
}

pub proof fn lemma_split_on_nonempty(s: Seq<char>, sep: char)
    ensures
        split_on(s, sep).len() >= 1,
    decreases s.len(),
{
    if s.len() > 0 {
        lemma_split_on_nonempty(s.drop_last(), sep);
    }
}

/// The characters of a string slice, in order.
pub fn chars_of(s: &str) -> (r: Vec<char>)
    ensures
        r@ == s@,
{
    let mut r: Vec<char> = Vec::new();
    for c in it: s.chars()
        invariant
            r@ == it.seq().take(it.index() as int),
    {
        r.push(c);
    }
    r
}


/// Segments seen so far while splitting on '/': the finished non-empty
/// segments and the segment being read.
pub open spec fn segment_scan(s: Seq<char>) -> (Seq<Seq<char>>, Seq<char>)
    decreases s.len(),
{
    if s.len() == 0 {
        (Seq::empty(), Seq::empty())
    } else {
        let (done, cur) = segment_scan(s.drop_last());
        if s.last() == '/' {
            if cur.len() > 0 {
                (done.push(cur), Seq::empty())
            } else {
                (done, Seq::empty())
            }
        } else {
            (done, cur.push(s.last()))
        }
    }
}

/// The non-empty pieces of `s` between slashes, in order.
pub open spec fn path_segments(s: Seq<char>) -> Seq<Seq<char>> {
    let (done, cur) = segment_scan(s);
    if cur.len() > 0 {
        done.push(cur)
    } else {
        done
    }
}

pub open spec fn views(v: Seq<Vec<char>>) -> Seq<Seq<char>> {
    v.map_values(|p: Vec<char>| p@)
}

proof fn lemma_segments_nonempty(s: Seq<char>)
    ensures
        forall|i: int| 0 <= i < segment_scan(s).0.len() ==> #[trigger] segment_scan(s).0[i].len() > 0,
    decreases s.len(),
{
    if s.len() > 0 {
        lemma_segments_nonempty(s.drop_last());
        let (done, cur) = segment_scan(s.drop_last());
        let r = segment_scan(s).0;
        assert forall|i: int| 0 <= i < r.len() implies #[trigger] r[i].len() > 0 by {
            if i < done.len() {
                assert(r[i] == done[i]);
            }
        }
    }
}

pub proof fn lemma_path_segments_nonempty(s: Seq<char>)
    ensures
        forall|i: int| 0 <= i < path_segments(s).len() ==> #[trigger] path_segments(s)[i].len() > 0,
{
    lemma_segments_nonempty(s);
}

/// Splits a path on '/', keeping the non-empty segments.
pub fn split_path(s: &Vec<char>) -> (r: Vec<Vec<char>>)
    ensures
        views(r@) == path_segments(s@),
{
    let mut done: Vec<Vec<char>> = Vec::new();
    let mut cur: Vec<char> = Vec::new();
    let mut i: usize = 0;
    while i < s.len()
        invariant
            i <= s.len(),
            (views(done@), cur@) == segment_scan(s@.take(i as int)),
        decreases s.len() - i,
    {
        let c = s[i];
        proof {
            assert(s@.take(i + 1).drop_last() =~= s@.take(i as int));
        }
        if c == '/' {
            if cur.len() > 0 {
                done.push(cur);
                cur = Vec::new();
                proof {
                    assert(views(done@) =~= segment_scan(s@.take(i + 1)).0);
                }
            }
        } else {
            cur.push(c);
        }
        i = i + 1;
    }
    proof {
        assert(s@.take(s.len() as int) =~= s@);
    }
    if cur.len() > 0 {
        done.push(cur);
        proof {
            assert(views(done@) =~= path_segments(s@));
        }
    }
    done
}

/// Whether two character sequences are equal.
pub fn chars_equal(a: &Vec<char>, b: &Vec<char>) -> (r: bool)
    ensures
        r == (a@ == b@),
{
    if a.len() != b.len() {
        return false;
    }
    let mut i: usize = 0;
    while i < a.len()
        invariant
            i <= a.len(),
            a.len() == b.len(),
            a@.take(i as int) == b@.take(i as int),
        decreases a.len() - i,
    {
        if a[i] != b[i] {
            assert(a@[i as int] != b@[i as int]);
            return false;
        }
        proof {
            assert(a@.take(i + 1) =~= a@.take(i as int).push(a@[i as int]));
            assert(b@.take(i + 1) =~= b@.take(i as int).push(b@[i as int]));
        }
        i = i + 1;
    }
    assert(a@ =~= a@.take(i as int));
    assert(b@ =~= b@.take(i as int));
    true
}


/// Splits on `sep`, keeping empty pieces.
pub fn split_chars(s: &Vec<char>, sep: char) -> (r: Vec<Vec<char>>)
    ensures
        views(r@) == split_on(s@, sep),
{
    let mut done: Vec<Vec<char>> = Vec::new();
    let mut cur: Vec<char> = Vec::new();
    let mut i: usize = 0;
    proof {
        assert(s@.take(0) =~= Seq::<char>::empty());
        assert(views(done@).push(cur@) =~= seq![Seq::<char>::empty()]);
    }
    while i < s.len()
        invariant
            i <= s.len(),
            views(done@).push(cur@) == split_on(s@.take(i as int), sep),
        decreases s.len() - i,
    {
        let c = s[i];
        proof {
            assert(s@.take(i + 1).drop_last() =~= s@.take(i as int));
        }
        if c == sep {
            done.push(cur);
            cur = Vec::new();
            proof {
                assert(views(done@).push(cur@) =~= split_on(s@.take(i + 1), sep));
            }
        } else {
            cur.push(c);
            proof {
                assert(views(done@).push(cur@) =~= split_on(s@.take(i + 1), sep));
            }
        }
        i = i + 1;
    }
    proof {
        assert(s@.take(s.len() as int) =~= s@);
    }
    done.push(cur);
    done
}


/// The characters of `s` from `from` up to `to`.
pub fn sub_chars(s: &Vec<char>, from: usize, to: usize) -> (r: Vec<char>)
    requires
        from <= to <= s@.len(),
    ensures
        r@ == s@.subrange(from as int, to as int),
{
    let mut r: Vec<char> = Vec::new();
    let mut i: usize = from;
    while i < to
        invariant
            from <= i <= to <= s@.len(),
            r@ == s@.subrange(from as int, i as int),
        decreases to - i,
    {
        r.push(s[i]);
        proof {
            assert(r@ =~= s@.subrange(from as int, i + 1));
        }
        i = i + 1;
    }
    r
}


/// Characters that `str::trim` removes: those with the Unicode White_Space property.
pub open spec fn is_white_space(c: char) -> bool {
    ('\u{9}' <= c <= '\u{d}') || c == ' ' || c == '\u{85}' || c == '\u{a0}' || c == '\u{1680}' || (
    '\u{2000}' <= c <= '\u{200a}') || c == '\u{2028}' || c == '\u{2029}' || c == '\u{202f}' || c
        == '\u{205f}' || c == '\u{3000}'
}

/// The characters stripped around an address in forwarding headers.
pub open spec fn is_address_quote(c: char) -> bool {
    c == '"' || c == '[' || c == ']'
}

/// What a strip removes: white space, or address quotes.
pub open spec fn strips(quotes: bool, c: char) -> bool {
    if quotes {
        is_address_quote(c)
    } else {
        is_white_space(c)
    }
}

fn strips_char(quotes: bool, c: char) -> (r: bool)
    ensures
        r == strips(quotes, c),
{
    if quotes {
        c == '"' || c == '[' || c == ']'
    } else {
        ('\u{9}' <= c && c <= '\u{d}') || c == ' ' || c == '\u{85}' || c == '\u{a0}' || c
            == '\u{1680}' || ('\u{2000}' <= c && c <= '\u{200a}') || c == '\u{2028}' || c
            == '\u{2029}' || c == '\u{202f}' || c == '\u{205f}' || c == '\u{3000}'
    }
}

/// How many characters at the start of `s` a strip removes.
pub open spec fn lead_len(s: Seq<char>, quotes: bool) -> nat
    decreases s.len(),
{
    if s.len() > 0 && strips(quotes, s[0]) {
        1 + lead_len(s.drop_first(), quotes)
    } else {
        0
    }
}

/// How many characters at the end of `s` a strip removes.
pub open spec fn trail_len(s: Seq<char>, quotes: bool) -> nat
    decreases s.len(),
{
    if s.len() > 0 && strips(quotes, s.last()) {
        1 + trail_len(s.drop_last(), quotes)
    } else {
        0
    }
}

/// `s` without the stripped characters at either end.
pub open spec fn stripped(s: Seq<char>, quotes: bool) -> Seq<char> {
    let a = s.skip(lead_len(s, quotes) as int);
    a.take(a.len() - trail_len(a, quotes))
}

proof fn lemma_lead_len_bound(s: Seq<char>, quotes: bool)
    ensures
        lead_len(s, quotes) <= s.len(),
    decreases s.len(),
{
    if s.len() > 0 {
        lemma_lead_len_bound(s.drop_first(), quotes);
    }
}

proof fn lemma_trail_len_bound(s: Seq<char>, quotes: bool)
    ensures
        trail_len(s, quotes) <= s.len(),
    decreases s.len(),
{
    if s.len() > 0 {
        lemma_trail_len_bound(s.drop_last(), quotes);
    }
}

/// Removes white space (or address quotes, when `quotes`) from both ends.
pub fn strip_chars(s: &Vec<char>, quotes: bool) -> (r: Vec<char>)
    ensures
        r@ == stripped(s@, quotes),
{
    let n = s.len();
    let mut i: usize = 0;
    assert(s@.skip(0) =~= s@);
    while i < n && strips_char(quotes, s[i])
        invariant
            i <= n == s@.len(),
            lead_len(s@, quotes) == i + lead_len(s@.skip(i as int), quotes),
        decreases n - i,
    {
        assert(s@.skip(i as int).drop_first() =~= s@.skip(i + 1));
        i = i + 1;
    }
    let ghost a = s@.skip(i as int);
    assert(lead_len(a, quotes) == 0);
    let mut j: usize = n;
    while j > i && strips_char(quotes, s[j - 1])
        invariant
            i <= j <= n == s@.len(),
            a == s@.skip(i as int),
            trail_len(a, quotes) == (n - j) + trail_len(s@.subrange(i as int, j as int), quotes),
        decreases j,
    {
        assert(s@.subrange(i as int, j as int).drop_last() =~= s@.subrange(i as int, j - 1));
        j = j - 1;
    }
    assert(a =~= s@.subrange(i as int, n as int));
    assert(a.take(a.len() - trail_len(a, quotes)) =~= s@.subrange(i as int, j as int));
    sub_chars(s, i, j)
}

/// The position of the first `c` in `s`, or its length when there is none.
pub open spec fn first_index(s: Seq<char>, c: char) -> nat
    decreases s.len(),
{
    if s.len() == 0 || s[0] == c {
        0
    } else {
        1 + first_index(s.drop_first(), c)
    }
}

/// `s` up to its first `c`: the first half of `split_once`, or all of `s`.
pub open spec fn before_first(s: Seq<char>, c: char) -> Seq<char> {
    s.take(first_index(s, c) as int)
}

/// The part of `s` before its first `c`.
pub fn chars_before(s: &Vec<char>, c: char) -> (r: Vec<char>)
    ensures
        r@ == before_first(s@, c),
{
    let mut i: usize = 0;
    assert(s@.skip(0) =~= s@);
    while i < s.len() && s[i] != c
        invariant
            i <= s@.len(),
            first_index(s@, c) == i + first_index(s@.skip(i as int), c),
        decreases s.len() - i,
    {
        assert(s@.skip(i as int).drop_first() =~= s@.skip(i + 1));
        i = i + 1;
    }
    sub_chars(s, 0, i)
}


/// The text that `str::to_lowercase` makes of some characters.
pub uninterp spec fn lower_of(s: Seq<char>) -> Seq<char>;

/// Relies on str::to_lowercase: the result depends on the characters alone.
#[verifier::external_body]
pub(crate) fn lowercase(s: &Vec<char>) -> (r: Vec<char>)
    ensures
        r@ == lower_of(s@),
{
    s.iter().collect::<String>().to_lowercase().chars().collect()
}


pub open spec fn string_views(v: Seq<String>) -> Seq<Seq<char>> {
    v.map_values(|p: String| p@)
}

/// Splits a comma-separated list, keeping empty items.
pub fn split_list(s: &str) -> (r: Vec<String>)
    ensures
        string_views(r@) == split_on(s@, ','),
{
    let t = chars_of(s);
    let mut done: Vec<String> = Vec::new();
    let mut start: usize = 0;
    let mut i: usize = 0;
    proof {
        assert(s@.take(0) =~= Seq::<char>::empty());
        assert(string_views(done@).push(s@.subrange(0, 0)) =~= seq![Seq::<char>::empty()]);
    }
    while i < t.len()
        invariant
            t@ == s@,
            start <= i <= t@.len(),
            string_views(done@).push(s@.subrange(start as int, i as int)) == split_on(
                s@.take(i as int),
                ',',
            ),
        decreases t.len() - i,
    {
        let ghost before = string_views(done@);
        let ghost old_start = start;
        proof {
            assert(s@.take(i + 1).drop_last() =~= s@.take(i as int));
            assert(s@.take(i + 1).last() == t@[i as int]);
        }
        if t[i] == ',' {
            let piece = String::from_str(s.substring_char(start, i));
            done.push(piece);
            start = i + 1;
            proof {
                assert(string_views(done@) =~= before.push(s@.subrange(old_start as int, i as int)));
                assert(s@.subrange(start as int, i + 1) =~= Seq::<char>::empty());
                assert(string_views(done@).push(s@.subrange(start as int, i + 1)) =~= split_on(
                    s@.take(i + 1),
                    ',',
                ));
            }
        } else {
            proof {
                assert(s@.subrange(start as int, i + 1) =~= s@.subrange(start as int, i as int).push(
                    t@[i as int],
                ));
                assert(string_views(done@).push(s@.subrange(start as int, i + 1)) =~= split_on(
                    s@.take(i + 1),
                    ',',
                ));
            }
        }
        i = i + 1;
    }
    proof {
        assert(s@.take(t.len() as int) =~= s@);
    }
    let last = String::from_str(s.substring_char(start, t.len()));
    let ghost before_last = string_views(done@);
    done.push(last);
    proof {
        assert(string_views(done@) =~= before_last.push(s@.subrange(start as int, s@.len() as int)));
        assert(string_views(done@) =~= split_on(s@, ','));
    }
    done
}

} // verus!
