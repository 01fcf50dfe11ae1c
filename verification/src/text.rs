//! Text primitives over Unicode scalar sequences: whitespace trimming,
//! splitting on a separator and joining with one, as `str::trim`,
//! `str::split` and `join` behave on them.

use vstd::prelude::*;

verus! {

/// Characters with the Unicode `White_Space` property.
pub open spec fn is_white_space(c: char) -> bool {
    ||| ('\u{9}' <= c && c <= '\u{d}')
    ||| c == ' '
    ||| c == '\u{85}'
    ||| c == '\u{a0}'
    ||| c == '\u{1680}'
    ||| ('\u{2000}' <= c && c <= '\u{200a}')
    ||| c == '\u{2028}'
    ||| c == '\u{2029}'
    ||| c == '\u{202f}'
    ||| c == '\u{205f}'
    ||| c == '\u{3000}'
}

/// `s` without its leading whitespace.
pub open spec fn trim_start(s: Seq<char>) -> Seq<char>
    decreases s.len(),
{
    if s.len() > 0 && is_white_space(s[0]) {
        trim_start(s.drop_first())
    } else {
        s
    }
}

/// `s` without its trailing whitespace.
pub open spec fn trim_end(s: Seq<char>) -> Seq<char>
    decreases s.len(),
{
    if s.len() > 0 && is_white_space(s.last()) {
        trim_end(s.drop_last())
    } else {
        s
    }
}

/// `s` without leading and trailing whitespace.
pub open spec fn trim(s: Seq<char>) -> Seq<char> {
    trim_end(trim_start(s))
}

/// Splitting what is left of the text, `s`, after the current piece `cur`:
/// scanning from the front, each occurrence of `sep` ends a piece.
pub open spec fn split_from(s: Seq<char>, sep: Seq<char>, cur: Seq<char>) -> Seq<Seq<char>>
    decreases s.len(),
{
    if s.len() == 0 {
        seq![cur]
    } else if 0 < sep.len() <= s.len() && s.take(sep.len() as int) == sep {
        seq![cur] + split_from(s.skip(sep.len() as int), sep, Seq::empty())
    } else {
        split_from(s.drop_first(), sep, cur.push(s[0]))
    }
}

/// The pieces of `s` between the non-overlapping occurrences of `sep`,
/// found from left to right.
pub open spec fn split(s: Seq<char>, sep: Seq<char>) -> Seq<Seq<char>> {
    split_from(s, sep, Seq::empty())
}

/// The pieces joined, with `sep` between each two neighbours.
pub open spec fn join(parts: Seq<Seq<char>>, sep: Seq<char>) -> Seq<char>
    decreases parts.len(),
{
    if parts.len() == 0 {
        Seq::empty()
    } else if parts.len() == 1 {
        parts[0]
    } else {
        join(parts.drop_last(), sep) + sep + parts.last()
    }
}

/// The first `n` items, or all of them where there are fewer.
pub open spec fn take_up_to<A>(s: Seq<A>, n: int) -> Seq<A> {
    if n < s.len() {
        s.take(n)
    } else {
        s
    }
}

/// All but the first `n` items; nothing where there are at most `n`.
pub open spec fn skip_up_to<A>(s: Seq<A>, n: int) -> Seq<A> {
    if n < s.len() {
        s.skip(n)
    } else {
        Seq::empty()
    }
}

/// The character sequences of a list of string slices.
pub open spec fn strs_view(v: Seq<&str>) -> Seq<Seq<char>> {
    v.map_values(|p: &str| p@)
}

/// Decides the Unicode `White_Space` property.
pub fn white_space(c: char) -> (res: bool)
    ensures
        res == is_white_space(c),
{
    ('\u{9}' <= c && c <= '\u{d}') || c == ' ' || c == '\u{85}' || c == '\u{a0}' || c == '\u{1680}'
        || ('\u{2000}' <= c && c <= '\u{200a}') || c == '\u{2028}' || c == '\u{2029}' || c
        == '\u{202f}' || c == '\u{205f}' || c == '\u{3000}'
}

/// The characters of `s`, read once from the front.
pub fn chars_of(s: &str) -> (res: Vec<char>)
    ensures
        res@ == s@,
{
    let mut out: Vec<char> = Vec::new();
    for c in it: s.chars()
        invariant
            out@ == it.seq().take(it.index() as int),
    {
        out.push(c);
    }
    out
}

proof fn lemma_trim_start_skip(s: Seq<char>, i: int)
    requires
        0 <= i <= s.len(),
        forall|j: int| 0 <= j < i ==> is_white_space(#[trigger] s[j]),
    ensures
        trim_start(s) == trim_start(s.skip(i)),
    decreases i,
{
    if i > 0 {
        assert(s.drop_first().skip(i - 1) =~= s.skip(i));
        lemma_trim_start_skip(s.drop_first(), i - 1);
    } else {
        assert(s.skip(0) =~= s);
    }
}

proof fn lemma_trim_end_take(s: Seq<char>, i: int)
    requires
        0 <= i <= s.len(),
        forall|j: int| i <= j < s.len() ==> is_white_space(#[trigger] s[j]),
    ensures
        trim_end(s) == trim_end(s.take(i)),
    decreases s.len() - i,
{
    if i < s.len() {
        assert(s.drop_last().take(i) =~= s.take(i));
        lemma_trim_end_take(s.drop_last(), i);
    } else {
        assert(s.take(i) =~= s);
    }
}

/// `s` without leading and trailing whitespace, as `str::trim` gives it.
pub fn trim_str<'a>(s: &'a str) -> (res: &'a str)
    ensures
        res@ == trim(s@),
{
    let cs = chars_of(s);
    let n = cs.len();
    let mut lo: usize = 0;
    while lo < n && white_space(cs[lo])
        invariant
            n == cs@.len(),
            cs@ == s@,
            lo <= n,
            forall|j: int| 0 <= j < lo ==> is_white_space(#[trigger] cs@[j]),
        decreases n - lo,
    {
        lo = lo + 1;
    }
    proof {
        lemma_trim_start_skip(s@, lo as int);
    }
    let mut hi: usize = n;
    while hi > lo && white_space(cs[hi - 1])
        invariant
            n == cs@.len(),
            cs@ == s@,
            lo <= hi <= n,
            forall|j: int| hi <= j < n ==> is_white_space(#[trigger] cs@[j]),
        decreases hi,
    {
        hi = hi - 1;
    }
    proof {
        let t = s@.skip(lo as int);
        assert(trim_start(t) == t);
        assert forall|j: int| hi - lo <= j < t.len() implies is_white_space(#[trigger] t[j]) by {
            assert(t[j] == s@[j + lo]);
        }
        lemma_trim_end_take(t, hi - lo);
        assert(t.take(hi - lo) =~= s@.subrange(lo as int, hi as int));
    }
    s.substring_char(lo, hi)
}


/// Whether `sep` occurs in `cs` at position `i`.
fn occurs_at(cs: &Vec<char>, i: usize, sep: &Vec<char>) -> (res: bool)
    requires
        i <= cs@.len(),
    ensures
        res == (i + sep@.len() <= cs@.len() && cs@.subrange(i as int, i + sep@.len()) == sep@),
{
    let k = sep.len();
    if k > cs.len() - i {
        return false;
    }
    let mut j: usize = 0;
    while j < k
        invariant
            j <= k,
            k == sep@.len(),
            i + k <= cs.len(),
            forall|t: int| 0 <= t < j ==> cs@[i + t] == sep@[t],
        decreases k - j,
    {
        if cs[i + j] != sep[j] {
            assert(cs@.subrange(i as int, i + k)[j as int] != sep@[j as int]);
            return false;
        }
        j = j + 1;
    }
    assert(cs@.subrange(i as int, i + k) =~= sep@);
    true
}

/// The pieces of `s` between the occurrences of `sep`, as `str::split` gives them.
pub fn split_str<'a>(s: &'a str, sep: &str) -> (res: Vec<&'a str>)
    requires
        sep@.len() > 0,
    ensures
        strs_view(res@) == split(s@, sep@),
{
    let cs = chars_of(s);
    let sv = chars_of(sep);
    let n = cs.len();
    let k = sv.len();
    let mut out: Vec<&'a str> = Vec::new();
    let mut start: usize = 0;
    let mut i: usize = 0;
    proof {
        assert(s@.skip(0) =~= s@);
        assert(s@.subrange(0, 0) =~= Seq::<char>::empty());
        assert(strs_view(out@) =~= Seq::<Seq<char>>::empty());
        assert(strs_view(out@) + split(s@, sep@) =~= split(s@, sep@));
    }
    while i < n
        invariant
            n == cs@.len(),
            cs@ == s@,
            sv@ == sep@,
            k == sep@.len(),
            k > 0,
            start <= i <= n,
            split(s@, sep@) == strs_view(out@) + split_from(
                s@.skip(i as int),
                sep@,
                s@.subrange(start as int, i as int),
            ),
        decreases n - i,
    {
        let rest = Ghost(s@.skip(i as int));
        let cur = Ghost(s@.subrange(start as int, i as int));
        if occurs_at(&cs, i, &sv) {
            proof {
                assert(rest@.take(k as int) =~= cs@.subrange(i as int, i + k));
                assert(rest@.skip(k as int) =~= s@.skip(i + k));
                assert(s@.subrange((i + k) as int, (i + k) as int) =~= Seq::<char>::empty());
            }
            let piece = s.substring_char(start, i);
            let ghost before = out@;
            out.push(piece);
            proof {
                assert(strs_view(out@) =~= strs_view(before) + seq![cur@]);
                assert(strs_view(before) + (seq![cur@] + split_from(
                    rest@.skip(k as int),
                    sep@,
                    Seq::empty(),
                )) =~= strs_view(out@) + split_from(rest@.skip(k as int), sep@, Seq::empty()));
            }
            i = i + k;
            start = i;
        } else {
            proof {
                if k <= rest@.len() {
                    assert(rest@.take(k as int) =~= cs@.subrange(i as int, i + k));
                }
                assert(rest@.drop_first() =~= s@.skip(i + 1));
                assert(cur@.push(rest@[0]) =~= s@.subrange(start as int, i + 1));
            }
            i = i + 1;
        }
    }
    let piece = s.substring_char(start, n);
    let ghost before = out@;
    out.push(piece);
    proof {
        assert(s@.skip(n as int) =~= Seq::<char>::empty());
        assert(strs_view(out@) =~= strs_view(before) + seq![s@.subrange(start as int, n as int)]);
    }
    out
}

/// `parts[from..to]` joined with `sep` between neighbours, as `join` gives it.
pub fn join_range(parts: &Vec<&str>, from: usize, to: usize, sep: &str) -> (res: String)
    requires
        from <= to <= parts@.len(),
    ensures
        res@ == join(strs_view(parts@).subrange(from as int, to as int), sep@),
{
    let mut out = String::new();
    let mut i = from;
    while i < to
        invariant
            from <= i <= to <= parts@.len(),
            out@ == join(strs_view(parts@).subrange(from as int, i as int), sep@),
        decreases to - i,
    {
        let ghost done = strs_view(parts@).subrange(from as int, i as int);
        let ghost next = strs_view(parts@).subrange(from as int, i + 1);
        assert(next.drop_last() =~= done);
        if i > from {
            out.append(sep);
        } else {
            assert(done =~= Seq::<Seq<char>>::empty());
        }
        out.append(parts[i]);
        i = i + 1;
    }
    out
}


/// Joining puts the separator between a first piece and the join of the rest.
pub proof fn lemma_join_prepend(first: Seq<char>, rest: Seq<Seq<char>>, sep: Seq<char>)
    requires
        rest.len() > 0,
    ensures
        join(seq![first] + rest, sep) == first + sep + join(rest, sep),
    decreases rest.len(),
{
    let all = seq![first] + rest;
    assert(all.last() == rest.last());
    if rest.len() == 1 {
        assert(all.drop_last() =~= seq![first]);
        assert(join(all.drop_last(), sep) == first);
        assert(join(rest, sep) == rest[0]);
        assert(join(all, sep) == join(all.drop_last(), sep) + sep + all.last());
    } else {
        lemma_join_prepend(first, rest.drop_last(), sep);
        assert(all.drop_last() =~= seq![first] + rest.drop_last());
        assert(join(all, sep) == join(all.drop_last(), sep) + sep + all.last());
        assert(join(rest, sep) == join(rest.drop_last(), sep) + sep + rest.last());
        assert(first + sep + join(rest.drop_last(), sep) + sep + rest.last() =~= first + sep + (
        join(rest.drop_last(), sep) + sep + rest.last()));
    }
}

proof fn lemma_join_split_from(s: Seq<char>, sep: Seq<char>, cur: Seq<char>)
    requires
        sep.len() > 0,
    ensures
        join(split_from(s, sep, cur), sep) == cur + s,
    decreases s.len(),
{
    if s.len() == 0 {
        assert(cur + s =~= cur);
    } else if sep.len() <= s.len() && s.take(sep.len() as int) == sep {
        let rest = s.skip(sep.len() as int);
        lemma_join_split_from(rest, sep, Seq::empty());
        let tail = split_from(rest, sep, Seq::empty());
        assert(tail.len() > 0) by {
            lemma_split_from_nonempty(rest, sep, Seq::empty());
        }
        lemma_join_prepend(cur, tail, sep);
        assert(Seq::<char>::empty() + rest =~= rest);
        assert(cur + sep + rest =~= cur + s) by {
            assert(s =~= s.take(sep.len() as int) + rest);
        }
    } else {
        lemma_join_split_from(s.drop_first(), sep, cur.push(s[0]));
        assert(cur.push(s[0]) + s.drop_first() =~= cur + s);
    }
}

/// Splitting always gives at least one piece.
pub proof fn lemma_split_from_nonempty(s: Seq<char>, sep: Seq<char>, cur: Seq<char>)
    ensures
        split_from(s, sep, cur).len() > 0,
    decreases s.len(),
{
    if s.len() == 0 {
    } else if 0 < sep.len() <= s.len() && s.take(sep.len() as int) == sep {
        lemma_split_from_nonempty(s.skip(sep.len() as int), sep, Seq::empty());
    } else {
        lemma_split_from_nonempty(s.drop_first(), sep, cur.push(s[0]));
    }
}

/// Law: joining the pieces of a split with the same separator gives back the text.
pub proof fn law_join_split(s: Seq<char>, sep: Seq<char>)
    requires
        sep.len() > 0,
    ensures
        join(split(s, sep), sep) == s,
{
    lemma_join_split_from(s, sep, Seq::empty());
    assert(Seq::<char>::empty() + s =~= s);
}

proof fn lemma_split_from_pieces_free(s: Seq<char>, c: char, cur: Seq<char>)
    requires
        !cur.contains(c),
    ensures
        forall|i: int|
            0 <= i < split_from(s, seq![c], cur).len() ==> !(#[trigger] split_from(
                s,
                seq![c],
                cur,
            )[i]).contains(c),
    decreases s.len(),
{
    let sep = seq![c];
    if s.len() == 0 {
    } else if s.take(1) == sep {
        lemma_split_from_pieces_free(s.skip(1), c, Seq::empty());
        let tail = split_from(s.skip(1), sep, Seq::empty());
        assert(split_from(s, sep, cur) == seq![cur] + tail);
        assert forall|i: int| 0 <= i < split_from(s, sep, cur).len() implies !(#[trigger] split_from(
            s,
            sep,
            cur,
        )[i]).contains(c) by {
            if i > 0 {
                assert(split_from(s, sep, cur)[i] == tail[i - 1]);
            }
        }
    } else {
        assert(s[0] != c) by {
            if s[0] == c {
                assert(s.take(1) =~= sep);
            }
        }
        assert(!cur.push(s[0]).contains(c)) by {
            if cur.push(s[0]).contains(c) {
                let j = choose|j: int| 0 <= j < cur.push(s[0]).len() && cur.push(s[0])[j] == c;
                if j < cur.len() {
                    assert(cur[j] == c);
                }
            }
        }
        lemma_split_from_pieces_free(s.drop_first(), c, cur.push(s[0]));
        assert(split_from(s, sep, cur) == split_from(s.drop_first(), sep, cur.push(s[0])));
    }
}

/// Law: no piece of a split on a character holds that character.
pub proof fn law_split_pieces_free(s: Seq<char>, c: char)
    ensures
        forall|i: int|
            0 <= i < split(s, seq![c]).len() ==> !(#[trigger] split(s, seq![c])[i]).contains(c),
{
    lemma_split_from_pieces_free(s, c, Seq::empty());
}

pub proof fn lemma_split_from_free(s: Seq<char>, c: char, cur: Seq<char>)
    requires
        !s.contains(c),
    ensures
        split_from(s, seq![c], cur) == seq![cur + s],
    decreases s.len(),
{
    if s.len() == 0 {
        assert(cur + s =~= cur);
    } else {
        assert(s.take(1) != seq![c]) by {
            if s.take(1) =~= seq![c] {
                assert(s.take(1)[0] == s[0]);
                assert(s[0] == c);
            }
        }
        assert(!s.drop_first().contains(c)) by {
            if s.drop_first().contains(c) {
                let j = choose|j: int| 0 <= j < s.drop_first().len() && s.drop_first()[j] == c;
                assert(s[j + 1] == c);
            }
        }
        lemma_split_from_free(s.drop_first(), c, cur.push(s[0]));
        assert(cur.push(s[0]) + s.drop_first() =~= cur + s);
    }
}

pub proof fn lemma_split_append(a: Seq<char>, c: char, rest: Seq<char>)
    requires
        !a.contains(c),
    ensures
        split(a + seq![c] + rest, seq![c]) == seq![a] + split(rest, seq![c]),
    decreases a.len(),
{
    lemma_split_from_prefix(a, c, rest, Seq::empty());
    assert(Seq::<char>::empty() + a =~= a);
}

proof fn lemma_split_from_prefix(a: Seq<char>, c: char, rest: Seq<char>, cur: Seq<char>)
    requires
        !a.contains(c),
    ensures
        split_from(a + seq![c] + rest, seq![c], cur) == seq![cur + a] + split(rest, seq![c]),
    decreases a.len(),
{
    let s = a + seq![c] + rest;
    if a.len() == 0 {
        assert(s.take(1) =~= seq![c]);
        assert(s.skip(1) =~= rest);
        assert(cur + a =~= cur);
    } else {
        assert(s.take(1) != seq![c]) by {
            if s.take(1) =~= seq![c] {
                assert(s.take(1)[0] == s[0]);
                assert(s[0] == a[0]);
                assert(a[0] == c);
            }
        }
        assert(!a.drop_first().contains(c)) by {
            if a.drop_first().contains(c) {
                let j = choose|j: int| 0 <= j < a.drop_first().len() && a.drop_first()[j] == c;
                assert(a[j + 1] == c);
            }
        }
        assert(s.drop_first() =~= a.drop_first() + seq![c] + rest);
        lemma_split_from_prefix(a.drop_first(), c, rest, cur.push(s[0]));
        assert(cur.push(s[0]) + a.drop_first() =~= cur + a);
    }
}

/// Law: splitting on a character undoes joining with it, when no piece holds it.
pub proof fn law_split_join(parts: Seq<Seq<char>>, c: char)
    requires
        parts.len() > 0,
        forall|i: int| 0 <= i < parts.len() ==> !(#[trigger] parts[i]).contains(c),
    ensures
        split(join(parts, seq![c]), seq![c]) == parts,
    decreases parts.len(),
{
    let sep = seq![c];
    if parts.len() == 1 {
        lemma_split_from_free(parts[0], c, Seq::empty());
        assert(Seq::<char>::empty() + parts[0] =~= parts[0]);
        assert(seq![parts[0]] =~= parts);
    } else {
        let rest = parts.drop_first();
        assert(parts =~= seq![parts[0]] + rest);
        lemma_join_prepend(parts[0], rest, sep);
        assert forall|i: int| 0 <= i < rest.len() implies !(#[trigger] rest[i]).contains(c) by {
            assert(rest[i] == parts[i + 1]);
        }
        law_split_join(rest, c);
        assert(!parts[0].contains(c));
        lemma_split_append(parts[0], c, join(rest, sep));
    }
}


/// Owned copies of string slices.
pub fn to_owned_all(parts: &Vec<&str>) -> (res: Vec<String>)
    ensures
        res.deep_view() == strs_view(parts@),
{
    let mut out: Vec<String> = Vec::new();
    let mut i: usize = 0;
    while i < parts.len()
        invariant
            i <= parts@.len(),
            out.deep_view() == strs_view(parts@).take(i as int),
        decreases parts@.len() - i,
    {
        let ghost before = out.deep_view();
        out.push(String::from_str(parts[i]));
        assert(out.deep_view() =~= before.push(parts@[i as int]@));
        assert(strs_view(parts@).take(i + 1) =~= strs_view(parts@).take(i as int).push(
            parts@[i as int]@,
        ));
        i = i + 1;
    }
    assert(strs_view(parts@).take(i as int) =~= strs_view(parts@));
    out
}

/// The whole of `a` followed by the whole of `b`.
pub fn concat(a: &str, b: &str) -> (res: String)
    ensures
        res@ == a@ + b@,
{
    let mut out = String::from_str(a);
    out.append(b);
    out
}


/// Text that neither starts nor ends with whitespace is its own trim.
pub proof fn lemma_trim_fixed(s: Seq<char>)
    requires
        s.len() > 0,
        !is_white_space(s[0]),
        !is_white_space(s.last()),
    ensures
        trim(s) == s,
{
    assert(trim_start(s) == s);
    assert(trim_end(s) == s);
}

/// A join holds a character only if a piece or the separator holds it.
pub proof fn lemma_join_free(parts: Seq<Seq<char>>, sep: Seq<char>, c: char)
    requires
        !sep.contains(c),
        forall|i: int| 0 <= i < parts.len() ==> !(#[trigger] parts[i]).contains(c),
    ensures
        !join(parts, sep).contains(c),
    decreases parts.len(),
{
    if parts.len() == 0 {
    } else if parts.len() == 1 {
        assert(!parts[0].contains(c));
    } else {
        let init = parts.drop_last();
        assert forall|i: int| 0 <= i < init.len() implies !(#[trigger] init[i]).contains(c) by {
            assert(init[i] == parts[i]);
        }
        lemma_join_free(init, sep, c);
        let a = join(init, sep);
        let b = parts.last();
        assert(!b.contains(c)) by {
            assert(b == parts[parts.len() - 1]);
        }
        let whole = a + sep + b;
        if whole.contains(c) {
            let j = choose|j: int| 0 <= j < whole.len() && whole[j] == c;
            if j < a.len() {
                assert(a[j] == c);
            } else if j < a.len() + sep.len() {
                assert(sep[j - a.len()] == c);
            } else {
                assert(b[j - a.len() - sep.len()] == c);
            }
        }
    }
}


/// Text without the separator's first character is a single piece.
pub proof fn lemma_split_from_unseparated(s: Seq<char>, sep: Seq<char>, cur: Seq<char>)
    requires
        sep.len() > 0,
        !s.contains(sep[0]),
    ensures
        split_from(s, sep, cur) == seq![cur + s],
    decreases s.len(),
{
    if s.len() == 0 {
        assert(cur + s =~= cur);
    } else {
        assert(!(sep.len() <= s.len() && s.take(sep.len() as int) == sep)) by {
            if sep.len() <= s.len() && s.take(sep.len() as int) == sep {
                assert(s.take(sep.len() as int)[0] == s[0]);
                assert(s[0] == sep[0]);
            }
        }
        assert(!s.drop_first().contains(sep[0])) by {
            if s.drop_first().contains(sep[0]) {
                let j = choose|j: int| 0 <= j < s.drop_first().len() && s.drop_first()[j] == sep[0];
                assert(s[j + 1] == sep[0]);
            }
        }
        lemma_split_from_unseparated(s.drop_first(), sep, cur.push(s[0]));
        assert(cur.push(s[0]) + s.drop_first() =~= cur + s);
    }
}

/// Joining the pieces of a split on `c` with `d` puts `d` in place of
/// each `c`.
pub proof fn lemma_join_split_from_replace(s: Seq<char>, c: char, d: char, cur: Seq<char>)
    ensures
        join(split_from(s, seq![c], cur), seq![d]) =~= cur + Seq::new(
            s.len(),
            |i: int| if s[i] == c { d } else { s[i] },
        ),
    decreases s.len(),
{
    let sep = seq![c];
    let rep = Seq::new(s.len(), |i: int| if s[i] == c { d } else { s[i] });
    if s.len() == 0 {
        assert(cur + rep =~= cur);
    } else if s.take(1) == sep {
        assert(s[0] == c) by {
            assert(s.take(1)[0] == s[0]);
        }
        let rest = s.skip(1);
        let rrep = Seq::new(rest.len(), |i: int| if rest[i] == c { d } else { rest[i] });
        lemma_join_split_from_replace(rest, c, d, Seq::empty());
        let tail = split_from(rest, sep, Seq::empty());
        lemma_split_from_nonempty(rest, sep, Seq::empty());
        lemma_join_prepend(cur, tail, seq![d]);
        assert(Seq::<char>::empty() + rrep =~= rrep);
        assert(rep =~= seq![d] + rrep);
        assert(cur + seq![d] + rrep =~= cur + (seq![d] + rrep));
    } else {
        assert(s[0] != c) by {
            if s[0] == c {
                assert(s.take(1) =~= sep);
            }
        }
        let rest = s.drop_first();
        let rrep = Seq::new(rest.len(), |i: int| if rest[i] == c { d } else { rest[i] });
        lemma_join_split_from_replace(rest, c, d, cur.push(s[0]));
        assert(rep =~= seq![s[0]] + rrep);
        assert(cur.push(s[0]) + rrep =~= cur + (seq![s[0]] + rrep));
    }
}

/// Law: splitting on one character and joining with another replaces each
/// occurrence of the first by the second, and changes nothing else.
pub proof fn law_split_join_replaces(s: Seq<char>, c: char, d: char)
    ensures
        join(split(s, seq![c]), seq![d]).len() == s.len(),
        forall|i: int|
            0 <= i < s.len() ==> #[trigger] join(split(s, seq![c]), seq![d])[i] == if s[i] == c {
                d
            } else {
                s[i]
            },
{
    lemma_join_split_from_replace(s, c, d, Seq::empty());
    let rep = Seq::new(s.len(), |i: int| if s[i] == c { d } else { s[i] });
    assert(Seq::<char>::empty() + rep =~= rep);
}

/// What trimming leaves off the end is whitespace: a trimmed text is a
/// prefix of the original ending in a non-whitespace character.
proof fn lemma_trim_end_shape(s: Seq<char>)
    ensures
        trim_end(s).len() <= s.len(),
        forall|i: int| 0 <= i < trim_end(s).len() ==> #[trigger] trim_end(s)[i] == s[i],
        trim_end(s).len() > 0 ==> !is_white_space(trim_end(s).last()),
    decreases s.len(),
{
    if s.len() > 0 && is_white_space(s.last()) {
        lemma_trim_end_shape(s.drop_last());
    }
}

/// What trimming leaves at the front is not whitespace.
proof fn lemma_trim_start_shape(s: Seq<char>)
    ensures
        trim_start(s).len() > 0 ==> !is_white_space(trim_start(s)[0]),
    decreases s.len(),
{
    if s.len() > 0 && is_white_space(s[0]) {
        lemma_trim_start_shape(s.drop_first());
    }
}

/// Law: a trimmed text, if not empty, neither starts nor ends with
/// whitespace.
pub proof fn law_trim_ends(s: Seq<char>)
    ensures
        trim(s).len() > 0 ==> !is_white_space(trim(s)[0]) && !is_white_space(trim(s).last()),
{
    lemma_trim_start_shape(s);
    lemma_trim_end_shape(trim_start(s));
}

} // verus!
