//! Character-level text handling: Unicode whitespace, trimming, words,
//! unsigned-integer parsing, decimal rendering and UTF-8 byte lengths.
//!
//! Strings are modelled by their view, a `Seq<char>`.
use vstd::prelude::*;
use vstd::std_specs::iter::IteratorSpec;

verus! {

// ---------------------------------------------------------------------
// Whitespace, trimming and words
// ---------------------------------------------------------------------

/// The Unicode `White_Space` property, as used by `char::is_whitespace`,
/// `str::trim` and `str::split_whitespace`.
pub open spec fn is_ws(c: char) -> bool {
    let u = c as u32;
    ||| (0x09 <= u && u <= 0x0d)
    ||| u == 0x20
    ||| u == 0x85
    ||| u == 0xa0
    ||| u == 0x1680
    ||| (0x2000 <= u && u <= 0x200a)
    ||| u == 0x2028
    ||| u == 0x2029
    ||| u == 0x202f
    ||| u == 0x205f
    ||| u == 0x3000
}

/// `s` without its leading whitespace.
pub open spec fn trim_start(s: Seq<char>) -> Seq<char>
    decreases s.len(),
{
    if s.len() > 0 && is_ws(s[0]) {
        trim_start(s.drop_first())
    } else {
        s
    }
}

/// `s` without its trailing whitespace.
pub open spec fn trim_end(s: Seq<char>) -> Seq<char>
    decreases s.len(),
{
    if s.len() > 0 && is_ws(s.last()) {
        trim_end(s.drop_last())
    } else {
        s
    }
}

/// `s` without leading and trailing whitespace (`str::trim`).
pub open spec fn trim(s: Seq<char>) -> Seq<char> {
    trim_end(trim_start(s))
}

/// The longest prefix of `s` that holds no whitespace.
pub open spec fn word_prefix(s: Seq<char>) -> Seq<char>
    decreases s.len(),
{
    if s.len() > 0 && !is_ws(s[0]) {
        seq![s[0]] + word_prefix(s.drop_first())
    } else {
        Seq::empty()
    }
}

/// The first item of `s.split_whitespace()`, or the empty sequence
/// where there is none.
pub open spec fn first_word(s: Seq<char>) -> Seq<char> {
    word_prefix(trim_start(s))
}

/// What follows the first word of `s`: `s.split_whitespace().nth(1)` is
/// `first_word(after_first_word(s))`.
pub open spec fn after_first_word(s: Seq<char>) -> Seq<char> {
    trim_start(s).skip(first_word(s).len() as int)
}

/// The second item of `s.split_whitespace()`, or the empty sequence.
pub open spec fn second_word(s: Seq<char>) -> Seq<char> {
    first_word(after_first_word(s))
}

/// The prefix of `s` before the first occurrence of `c`
/// (the first item of `s.split(c)`).
pub open spec fn prefix_before(s: Seq<char>, c: char) -> Seq<char>
    decreases s.len(),
{
    if s.len() > 0 && s[0] != c {
        seq![s[0]] + prefix_before(s.drop_first(), c)
    } else {
        Seq::empty()
    }
}

/// Whether `c` is Unicode whitespace (`char::is_whitespace`).
pub fn is_whitespace(c: char) -> (r: bool)
    ensures
        r == is_ws(c),
{
    let u = c as u32;
    (0x09 <= u && u <= 0x0d) || u == 0x20 || u == 0x85 || u == 0xa0 || u == 0x1680 || (0x2000
        <= u && u <= 0x200a) || u == 0x2028 || u == 0x2029 || u == 0x202f || u == 0x205f || u
        == 0x3000
}

/// The characters of `s`, in order.
pub fn chars_of(s: &str) -> (v: Vec<char>)
    ensures
        v@ == s@,
{
    broadcast use vstd::string::group_string_axioms;

    let mut v: Vec<char> = Vec::new();
    let chars = s.chars();
    assert(chars.remaining() == s@);
    for c in it: chars
        invariant
            v@ == it.seq().take(it.index()),
            it.seq() == s@,
    {
        v.push(c);
    }
    v
}

/// The first index at or after `from` (and before `to`) that holds no
/// whitespace, or `to`.
pub fn skip_ws(v: &Vec<char>, from: usize, to: usize) -> (r: usize)
    requires
        from <= to <= v.len(),
    ensures
        from <= r <= to,
        trim_start(v@.subrange(from as int, to as int)) == v@.subrange(r as int, to as int),
        forall|j: int| from <= j < r ==> is_ws(#[trigger] v@[j]),
        r < to ==> !is_ws(v@[r as int]),
{
    let mut i = from;
    while i < to && is_whitespace(v[i])
        invariant
            from <= i <= to <= v.len(),
            trim_start(v@.subrange(from as int, to as int)) == trim_start(
                v@.subrange(i as int, to as int),
            ),
            forall|j: int| from <= j < i ==> is_ws(#[trigger] v@[j]),
        decreases to - i,
    {
        assert(v@.subrange(i as int, to as int).drop_first() =~= v@.subrange(
            i + 1,
            to as int,
        ));
        i = i + 1;
    }
    i
}

/// The last position `r` (at least `from`) such that everything from `r`
/// to `to` is whitespace.
pub fn skip_ws_back(v: &Vec<char>, from: usize, to: usize) -> (r: usize)
    requires
        from <= to <= v.len(),
    ensures
        from <= r <= to,
        trim_end(v@.subrange(from as int, to as int)) == v@.subrange(from as int, r as int),
        forall|j: int| r <= j < to ==> is_ws(#[trigger] v@[j]),
        from < r ==> !is_ws(v@[r - 1]),
{
    let mut i = to;
    while i > from && is_whitespace(v[i - 1])
        invariant
            from <= i <= to <= v.len(),
            trim_end(v@.subrange(from as int, to as int)) == trim_end(
                v@.subrange(from as int, i as int),
            ),
            forall|j: int| i <= j < to ==> is_ws(#[trigger] v@[j]),
        decreases i - from,
    {
        assert(v@.subrange(from as int, i as int).drop_last() =~= v@.subrange(
            from as int,
            i - 1,
        ));
        i = i - 1;
    }
    i
}

/// The end of the run of non-whitespace characters that starts at `from`.
pub fn word_end(v: &Vec<char>, from: usize, to: usize) -> (r: usize)
    requires
        from <= to <= v.len(),
    ensures
        from <= r <= to,
        word_prefix(v@.subrange(from as int, to as int)) == v@.subrange(from as int, r as int),
        r < to ==> is_ws(v@[r as int]),
{
    let mut i = from;
    while i < to && !is_whitespace(v[i])
        invariant
            from <= i <= to <= v.len(),
            word_prefix(v@.subrange(from as int, to as int)) == v@.subrange(from as int, i as int)
                + word_prefix(v@.subrange(i as int, to as int)),
        decreases to - i,
    {
        assert(v@.subrange(i as int, to as int).drop_first() =~= v@.subrange(
            i + 1,
            to as int,
        ));
        assert(v@.subrange(from as int, i as int) + seq![v@[i as int]] =~= v@.subrange(
            from as int,
            i + 1,
        ));
        i = i + 1;
    }
    assert(v@.subrange(from as int, i as int) + Seq::<char>::empty() =~= v@.subrange(
        from as int,
        i as int,
    ));
    i
}

/// The end of the prefix, starting at `from`, that holds no `c`.
pub fn find_char(v: &Vec<char>, from: usize, to: usize, c: char) -> (r: usize)
    requires
        from <= to <= v.len(),
    ensures
        from <= r <= to,
        prefix_before(v@.subrange(from as int, to as int), c) == v@.subrange(
            from as int,
            r as int,
        ),
{
    let mut i = from;
    while i < to && v[i] != c
        invariant
            from <= i <= to <= v.len(),
            prefix_before(v@.subrange(from as int, to as int), c) == v@.subrange(
                from as int,
                i as int,
            ) + prefix_before(v@.subrange(i as int, to as int), c),
        decreases to - i,
    {
        assert(v@.subrange(i as int, to as int).drop_first() =~= v@.subrange(
            i + 1,
            to as int,
        ));
        assert(v@.subrange(from as int, i as int) + seq![v@[i as int]] =~= v@.subrange(
            from as int,
            i + 1,
        ));
        i = i + 1;
    }
    assert(v@.subrange(from as int, i as int) + Seq::<char>::empty() =~= v@.subrange(
        from as int,
        i as int,
    ));
    i
}

/// Bounds `(a, b)` of the trimmed part of `v[from..to]`.
pub fn trim_bounds(v: &Vec<char>, from: usize, to: usize) -> (r: (usize, usize))
    requires
        from <= to <= v.len(),
    ensures
        from <= r.0 <= r.1 <= to,
        trim(v@.subrange(from as int, to as int)) == v@.subrange(r.0 as int, r.1 as int),
        r.0 < r.1 ==> !is_ws(v@[r.0 as int]) && !is_ws(v@[r.1 - 1]),
{
    let a = skip_ws(v, from, to);
    let b = skip_ws_back(v, a, to);
    (a, b)
}

/// Bounds of the first word of `v[from..to]` (see `first_word`).
pub fn first_word_bounds(v: &Vec<char>, from: usize, to: usize) -> (r: (usize, usize))
    requires
        from <= to <= v.len(),
    ensures
        from <= r.0 <= r.1 <= to,
        first_word(v@.subrange(from as int, to as int)) == v@.subrange(r.0 as int, r.1 as int),
        after_first_word(v@.subrange(from as int, to as int)) == v@.subrange(
            r.1 as int,
            to as int,
        ),
{
    let a = skip_ws(v, from, to);
    let e = word_end(v, a, to);
    assert(v@.subrange(a as int, to as int).skip(e - a) =~= v@.subrange(e as int, to as int));
    (a, e)
}

/// Whether `v[from..to]` is the text `lit`.
pub fn slice_is(v: &Vec<char>, from: usize, to: usize, lit: &str) -> (r: bool)
    requires
        from <= to <= v.len(),
    ensures
        r == (v@.subrange(from as int, to as int) == lit@),
{
    let w = chars_of(lit);
    if to - from != w.len() {
        proof {
            if v@.subrange(from as int, to as int) == lit@ {
                assert(v@.subrange(from as int, to as int).len() == w@.len());
            }
        }
        return false;
    }
    let mut i: usize = 0;
    while i < w.len()
        invariant
            from <= to <= v.len(),
            to - from == w.len(),
            w@ == lit@,
            i <= w.len(),
            forall|j: int| 0 <= j < i ==> v@[from + j] == w@[j],
        decreases w.len() - i,
    {
        if v[from + i] != w[i] {
            proof {
                if v@.subrange(from as int, to as int) == lit@ {
                    assert(v@.subrange(from as int, to as int)[i as int] == w@[i as int]);
                }
            }
            return false;
        }
        i = i + 1;
    }
    assert(v@.subrange(from as int, to as int) =~= w@);
    true
}

// ---------------------------------------------------------------------
// Words over concatenations
// ---------------------------------------------------------------------

/// Whether `s` holds no whitespace.
pub open spec fn no_ws(s: Seq<char>) -> bool {
    forall|i: int| 0 <= i < s.len() ==> !is_ws(#[trigger] s[i])
}

/// A word followed by more text: the word is part of the longest
/// whitespace-free prefix.
pub proof fn lemma_word_prefix_concat(a: Seq<char>, b: Seq<char>)
    requires
        no_ws(a),
    ensures
        word_prefix(a + b) == a + word_prefix(b),
    decreases a.len(),
{
    if a.len() == 0 {
        assert(a + b =~= b);
        assert(a + word_prefix(b) =~= word_prefix(b));
    } else {
        assert((a + b).drop_first() =~= a.drop_first() + b);
        assert(!is_ws(a[0]));
        lemma_word_prefix_concat(a.drop_first(), b);
        assert(seq![a[0]] + (a.drop_first() + word_prefix(b)) =~= a + word_prefix(b));
    }
}

/// The prefix before `c` of a text that starts with `a`, then `c`, where `a`
/// holds no `c`.
pub proof fn lemma_prefix_before_concat(a: Seq<char>, c: char, b: Seq<char>)
    requires
        !a.contains(c),
    ensures
        prefix_before(a + seq![c] + b, c) == a,
        prefix_before(a, c) == a,
    decreases a.len(),
{
    if a.len() == 0 {
        assert((a + seq![c] + b)[0] == c);
        assert(prefix_before(a, c) =~= a);
    } else {
        assert(a[0] != c) by {
            assert(a[0] == a[0]);
        }
        assert(!a.drop_first().contains(c)) by {
            if a.drop_first().contains(c) {
                let j = choose|j: int| 0 <= j < a.drop_first().len() && a.drop_first()[j] == c;
                assert(a[j + 1] == c);
            }
        }
        assert((a + seq![c] + b).drop_first() =~= a.drop_first() + seq![c] + b);
        lemma_prefix_before_concat(a.drop_first(), c, b);
        assert(seq![a[0]] + a.drop_first() =~= a);
    }
}

/// `trim_end` keeps a prefix.
pub proof fn lemma_trim_end_prefix(r: Seq<char>)
    ensures
        trim_end(r).len() <= r.len(),
        trim_end(r) == r.take(trim_end(r).len() as int),
    decreases r.len(),
{
    if r.len() > 0 && is_ws(r.last()) {
        lemma_trim_end_prefix(r.drop_last());
        assert(r.drop_last().take(trim_end(r).len() as int) =~= r.take(
            trim_end(r).len() as int,
        ));
    } else {
        assert(r.take(r.len() as int) =~= r);
    }
}

/// Trailing whitespace of a concatenation: where the second part is all
/// whitespace, the first part is trimmed; otherwise only the second.
pub proof fn lemma_trim_end_concat(a: Seq<char>, r: Seq<char>)
    ensures
        trim_end(a + r) == if trim_end(r).len() == 0 {
            trim_end(a)
        } else {
            a + trim_end(r)
        },
    decreases r.len(),
{
    if r.len() == 0 {
        assert(a + r =~= a);
    } else {
        assert((a + r).last() == r.last());
        if is_ws(r.last()) {
            assert((a + r).drop_last() =~= a + r.drop_last());
            lemma_trim_end_concat(a, r.drop_last());
        } else {
            assert(trim_end(a + r) == a + r);
            assert(trim_end(r) == r);
        }
    }
}

/// Whether `w` is whitespace only.
pub open spec fn all_ws(w: Seq<char>) -> bool {
    forall|i: int| 0 <= i < w.len() ==> is_ws(#[trigger] w[i])
}

/// Whitespace in front of a text is all that `trim_start` drops of it.
pub proof fn lemma_trim_start_ws_prefix(w: Seq<char>, s: Seq<char>)
    requires
        all_ws(w),
    ensures
        trim_start(w + s) == trim_start(s),
    decreases w.len(),
{
    if w.len() == 0 {
        assert(w + s =~= s);
    } else {
        assert((w + s)[0] == w[0]);
        assert((w + s).drop_first() =~= w.drop_first() + s);
        assert(all_ws(w.drop_first())) by {
            assert forall|i: int| 0 <= i < w.drop_first().len() implies is_ws(
                #[trigger] w.drop_first()[i],
            ) by {
                assert(w.drop_first()[i] == w[i + 1]);
            }
        }
        lemma_trim_start_ws_prefix(w.drop_first(), s);
    }
}

/// Whitespace behind a text is all that `trim_end` drops of it.
pub proof fn lemma_trim_end_ws_suffix(s: Seq<char>, w: Seq<char>)
    requires
        all_ws(w),
    ensures
        trim_end(s + w) == trim_end(s),
    decreases w.len(),
{
    if w.len() == 0 {
        assert(s + w =~= s);
    } else {
        assert((s + w).last() == w.last());
        assert((s + w).drop_last() =~= s + w.drop_last());
        assert(all_ws(w.drop_last())) by {
            assert forall|i: int| 0 <= i < w.drop_last().len() implies is_ws(
                #[trigger] w.drop_last()[i],
            ) by {
                assert(w.drop_last()[i] == w[i]);
            }
        }
        lemma_trim_end_ws_suffix(s, w.drop_last());
    }
}

/// Leading whitespace of a concatenation: where the first part is all
/// whitespace, the second part is trimmed; otherwise only the first.
pub proof fn lemma_trim_start_concat(a: Seq<char>, b: Seq<char>)
    ensures
        trim_start(a + b) == if trim_start(a).len() == 0 {
            trim_start(b)
        } else {
            trim_start(a) + b
        },
    decreases a.len(),
{
    if a.len() == 0 {
        assert(a + b =~= b);
    } else {
        assert((a + b)[0] == a[0]);
        if is_ws(a[0]) {
            assert((a + b).drop_first() =~= a.drop_first() + b);
            lemma_trim_start_concat(a.drop_first(), b);
        }
    }
}

/// What `trim_start` leaves is empty or starts with a non-whitespace
/// character.
pub proof fn lemma_trim_start_first(s: Seq<char>)
    ensures
        trim_start(s).len() == 0 || !is_ws(trim_start(s)[0]),
    decreases s.len(),
{
    if s.len() > 0 && is_ws(s[0]) {
        lemma_trim_start_first(s.drop_first());
    }
}

/// What `trim_end` leaves is empty or ends with a non-whitespace character.
pub proof fn lemma_trim_end_last(s: Seq<char>)
    ensures
        trim_end(s).len() == 0 || !is_ws(trim_end(s).last()),
    decreases s.len(),
{
    if s.len() > 0 && is_ws(s.last()) {
        lemma_trim_end_last(s.drop_last());
    }
}

/// Trimming is idempotent.
pub proof fn lemma_trim_idempotent(s: Seq<char>)
    ensures
        trim(trim(s)) == trim(s),
        trim_start(trim(s)) == trim(s),
        trim_end(trim(s)) == trim(s),
{
    let y = trim_start(s);
    let t = trim(s);
    lemma_trim_start_first(s);
    lemma_trim_end_last(y);
    lemma_trim_end_prefix(y);
    if t.len() > 0 {
        assert(t[0] == y[0]);
        assert(trim_start(t) == t);
        assert(trim_end(t) == t);
    }
}

/// Whitespace around a text never changes what `trim` leaves of it.
pub proof fn lemma_trim_surrounding(w1: Seq<char>, s: Seq<char>, w2: Seq<char>)
    requires
        all_ws(w1),
        all_ws(w2),
    ensures
        trim(w1 + s + w2) == trim(s),
{
    assert(w1 + s + w2 =~= w1 + (s + w2));
    lemma_trim_start_ws_prefix(w1, s + w2);
    lemma_trim_start_concat(s, w2);
    if trim_start(s).len() == 0 {
        lemma_trim_start_ws_prefix(w2, Seq::<char>::empty());
        assert(w2 + Seq::<char>::empty() =~= w2);
        assert(trim_start(w2).len() == 0);
    } else {
        lemma_trim_end_ws_suffix(trim_start(s), w2);
    }
}

/// A single word is its own trim and its own first word, and has no
/// second word.
pub proof fn lemma_one_word(w: Seq<char>)
    requires
        w.len() > 0,
        no_ws(w),
    ensures
        trim(w) == w,
        first_word(w) == w,
        second_word(w) == Seq::<char>::empty(),
{
    assert(!is_ws(w[0]));
    assert(!is_ws(w.last()));
    assert(trim_start(w) == w);
    assert(trim_end(w) == w);
    lemma_word_prefix_concat(w, Seq::<char>::empty());
    assert(w + Seq::<char>::empty() =~= w);
    assert(word_prefix(Seq::<char>::empty()) == Seq::<char>::empty());
    assert(after_first_word(w) =~= Seq::<char>::empty());
}

/// Two words with a space between them: the text is its own trim, its
/// first word is the first and its second word the second.
pub proof fn lemma_two_words(w1: Seq<char>, w2: Seq<char>)
    requires
        w1.len() > 0,
        no_ws(w1),
        w2.len() > 0,
        no_ws(w2),
    ensures
        trim(w1 + seq![' '] + w2) == w1 + seq![' '] + w2,
        first_word(w1 + seq![' '] + w2) == w1,
        second_word(w1 + seq![' '] + w2) == w2,
{
    let x = w1 + seq![' '] + w2;
    let sp = seq![' '] + w2;
    assert(x =~= w1 + sp);
    assert(x[0] == w1[0]);
    assert(x.last() == w2.last());
    assert(!is_ws(w1[0]));
    assert(!is_ws(w2.last()));
    assert(trim_start(x) == x);
    assert(trim_end(x) == x);
    assert(is_ws(sp[0]));
    assert(word_prefix(sp) == Seq::<char>::empty());
    lemma_word_prefix_concat(w1, sp);
    assert(w1 + Seq::<char>::empty() =~= w1);
    assert(first_word(x) == w1);
    assert(after_first_word(x) =~= sp);
    assert(all_ws(seq![' ']));
    lemma_trim_start_ws_prefix(seq![' '], w2);
    lemma_one_word(w2);
    assert(trim_start(w2) == w2);
    assert(first_word(sp) == word_prefix(w2));
}

// ---------------------------------------------------------------------
// Building strings
// ---------------------------------------------------------------------

/// Calls `String::push` (std). Trusted claim: afterwards the string holds
/// its old characters followed by `c`.
#[verifier::external_body]
pub(crate) fn push_char(s: &mut String, c: char)
    ensures
        final(s)@ == old(s)@.push(c),
{
    s.push(c);
}

/// Appends `v[from..to]` to `out`.
pub fn push_chars(out: &mut String, v: &Vec<char>, from: usize, to: usize)
    requires
        from <= to <= v.len(),
    ensures
        final(out)@ == old(out)@ + v@.subrange(from as int, to as int),
{
    let mut i = from;
    while i < to
        invariant
            from <= i <= to <= v.len(),
            out@ == old(out)@ + v@.subrange(from as int, i as int),
        decreases to - i,
    {
        push_char(out, v[i]);
        assert(v@.subrange(from as int, i + 1) =~= v@.subrange(from as int, i as int).push(
            v@[i as int],
        ));
        i = i + 1;
    }
}

/// A new string holding `v[from..to]`.
pub fn string_of(v: &Vec<char>, from: usize, to: usize) -> (s: String)
    requires
        from <= to <= v.len(),
    ensures
        s@ == v@.subrange(from as int, to as int),
{
    let mut s = String::new();
    push_chars(&mut s, v, from, to);
    assert(Seq::<char>::empty() + v@.subrange(from as int, to as int) =~= v@.subrange(
        from as int,
        to as int,
    ));
    s
}

/// Appends the whole of `t` to `out`.
pub fn push_string(out: &mut String, t: &String)
    ensures
        final(out)@ == old(out)@ + t@,
{
    out.append(t.as_str());
}

/// `n` spaces.
pub open spec fn spaces(n: nat) -> Seq<char> {
    Seq::new(n, |i: int| ' ')
}

/// `s` padded with spaces on the right to `width` characters (`{:<width}`).
pub open spec fn pad_right(s: Seq<char>, width: nat) -> Seq<char> {
    if s.len() < width {
        s + spaces((width - s.len()) as nat)
    } else {
        s
    }
}

/// `s` padded with spaces on the left to `width` characters (`{:>width}`).
pub open spec fn pad_left(s: Seq<char>, width: nat) -> Seq<char> {
    if s.len() < width {
        spaces((width - s.len()) as nat) + s
    } else {
        s
    }
}

/// Appends `n` spaces to `out`.
pub fn push_spaces(out: &mut String, n: usize)
    ensures
        final(out)@ == old(out)@ + spaces(n as nat),
{
    let mut i: usize = 0;
    while i < n
        invariant
            i <= n,
            out@ == old(out)@ + spaces(i as nat),
        decreases n - i,
    {
        push_char(out, ' ');
        assert(spaces(i as nat).push(' ') =~= spaces((i + 1) as nat));
        i = i + 1;
    }
}

/// The number of characters of `s`.
pub fn char_count(s: &String) -> (n: usize)
    ensures
        n == s@.len(),
{
    s.as_str().unicode_len()
}

/// Appends `s` padded on the right to `width` characters.
pub fn push_padded_right(out: &mut String, s: &String, width: usize)
    ensures
        final(out)@ == old(out)@ + pad_right(s@, width as nat),
{
    let n = char_count(s);
    push_string(out, s);
    if n < width {
        push_spaces(out, width - n);
    }
}

/// Appends `s` padded on the left to `width` characters.
pub fn push_padded_left(out: &mut String, s: &String, width: usize)
    ensures
        final(out)@ == old(out)@ + pad_left(s@, width as nat),
{
    let n = char_count(s);
    if n < width {
        push_spaces(out, width - n);
    }
    push_string(out, s);
}

// ---------------------------------------------------------------------
// Decimal numbers
// ---------------------------------------------------------------------

/// The ASCII digit for `d` (`0 <= d < 10`).
pub open spec fn digit_char(d: int) -> char {
    seq!['0', '1', '2', '3', '4', '5', '6', '7', '8', '9'][d]
}

/// The decimal representation of `n`, without leading zeros.
pub open spec fn decimal(n: nat) -> Seq<char>
    decreases n,
{
    if n < 10 {
        seq![digit_char(n as int)]
    } else {
        decimal(n / 10).push(digit_char((n % 10) as int))
    }
}

/// The decimal representation of the signed integer `n` (`-` before
/// negative numbers), as `Display` writes it.
pub open spec fn signed_decimal(n: int) -> Seq<char> {
    if n < 0 {
        seq!['-'] + decimal((-n) as nat)
    } else {
        decimal(n as nat)
    }
}

fn digit(d: u64) -> (c: char)
    requires
        d < 10,
    ensures
        c == digit_char(d as int),
{
    match d {
        0 => '0',
        1 => '1',
        2 => '2',
        3 => '3',
        4 => '4',
        5 => '5',
        6 => '6',
        7 => '7',
        8 => '8',
        _ => '9',
    }
}

/// Appends the decimal representation of `n` to `out`.
pub fn push_decimal(out: &mut String, n: u64)
    ensures
        final(out)@ == old(out)@ + decimal(n as nat),
    decreases n,
{
    if n < 10 {
        push_char(out, digit(n));
        assert(old(out)@.push(digit_char(n as int)) =~= old(out)@ + decimal(n as nat));
    } else {
        push_decimal(out, n / 10);
        push_char(out, digit(n % 10));
        assert(old(out)@ + decimal((n / 10) as nat) + seq![digit_char((n % 10) as int)]
            =~= old(out)@ + decimal(n as nat));
    }
}

/// Appends the decimal representation of the signed `n` to `out`.
pub fn push_signed_decimal(out: &mut String, n: i64)
    ensures
        final(out)@ == old(out)@ + signed_decimal(n as int),
{
    if n < 0 {
        push_char(out, '-');
        let magnitude: u64 = if n == i64::MIN {
            9223372036854775808u64
        } else {
            (-n) as u64
        };
        push_decimal(out, magnitude);
        assert(old(out)@.push('-') + decimal(magnitude as nat) =~= old(out)@ + (seq!['-']
            + decimal((-n) as nat)));
    } else {
        push_decimal(out, n as u64);
    }
}

// ---------------------------------------------------------------------
// Unsigned-integer parsing (`str::parse` for `u32` and `usize`)
// ---------------------------------------------------------------------

/// Why a text is not an unsigned integer of the requested type; the
/// kinds of `std::num::IntErrorKind` that unsigned parsing can give.
#[derive(Debug, Clone, Copy, PartialEq, Eq, Structural)]
pub enum IntErrorKind {
    /// The text is empty.
    Empty,
    /// The text holds a character that is not a digit.
    InvalidDigit,
    /// The number is larger than the type holds.
    PosOverflow,
}

impl IntErrorKind {
    /// The message that `ParseIntError`'s `Display` shows for this kind.
    pub fn message(&self) -> (s: String)
        ensures
            s@ == int_error_message(*self),
    {
        match self {
            IntErrorKind::Empty => String::from_str("cannot parse integer from empty string"),
            IntErrorKind::InvalidDigit => String::from_str("invalid digit found in string"),
            IntErrorKind::PosOverflow => String::from_str(
                "number too large to fit in target type",
            ),
        }
    }
}

/// The message that `ParseIntError`'s `Display` shows for kind `k`.
pub open spec fn int_error_message(k: IntErrorKind) -> Seq<char> {
    match k {
        IntErrorKind::Empty => "cannot parse integer from empty string"@,
        IntErrorKind::InvalidDigit => "invalid digit found in string"@,
        IntErrorKind::PosOverflow => "number too large to fit in target type"@,
    }
}

/// Whether `c` is an ASCII decimal digit.
pub open spec fn is_digit(c: char) -> bool {
    '0' <= c && c <= '9'
}

/// The value of the ASCII digit `c`.
pub open spec fn digit_value(c: char) -> int {
    c as int - '0' as int
}

/// Scans the digits `d` left to right on top of `acc`, as the standard
/// library does: the first non-digit, or the first digit that takes the
/// value above `max`, decides the error.
pub open spec fn scan_digits(d: Seq<char>, acc: int, max: int) -> Result<int, IntErrorKind>
    decreases d.len(),
{
    if d.len() == 0 {
        Ok(acc)
    } else if !is_digit(d[0]) {
        Err(IntErrorKind::InvalidDigit)
    } else if acc * 10 + digit_value(d[0]) > max {
        Err(IntErrorKind::PosOverflow)
    } else {
        scan_digits(d.drop_first(), acc * 10 + digit_value(d[0]), max)
    }
}

/// `str::parse` for an unsigned integer type whose largest value is `max`:
/// an optional `+`, then at least one ASCII digit.
pub open spec fn parse_unsigned(s: Seq<char>, max: int) -> Result<int, IntErrorKind> {
    if s.len() == 0 {
        Err(IntErrorKind::Empty)
    } else if (s[0] == '+' || s[0] == '-') && s.len() == 1 {
        Err(IntErrorKind::InvalidDigit)
    } else if s[0] == '+' {
        scan_digits(s.drop_first(), 0, max)
    } else {
        scan_digits(s, 0, max)
    }
}

/// `s.parse::<u32>().ok()`.
pub open spec fn parse_u32_opt(s: Seq<char>) -> Option<u32> {
    match parse_unsigned(s, u32::MAX as int) {
        Ok(n) => Some(n as u32),
        Err(_) => None,
    }
}

/// `s.parse::<usize>().ok()`.
pub open spec fn parse_usize_opt(s: Seq<char>) -> Option<usize> {
    match parse_unsigned(s, usize::MAX as int) {
        Ok(n) => Some(n as usize),
        Err(_) => None,
    }
}

proof fn lemma_scan_bounded(d: Seq<char>, acc: int, max: int)
    requires
        0 <= acc <= max,
    ensures
        scan_digits(d, acc, max) matches Ok(n) ==> acc <= n <= max,
    decreases d.len(),
{
    if d.len() > 0 && is_digit(d[0]) && acc * 10 + digit_value(d[0]) <= max {
        lemma_scan_bounded(d.drop_first(), acc * 10 + digit_value(d[0]), max);
    }
}

proof fn lemma_overflow_test(acc: int, dv: int, max: int)
    requires
        0 <= acc,
        0 <= dv <= 9,
        9 <= max,
    ensures
        (acc * 10 + dv > max) == (acc > (max - dv) / 10),
{
    assert((acc * 10 + dv > max) == (acc > (max - dv) / 10)) by (nonlinear_arith)
        requires
            0 <= acc,
            0 <= dv <= 9,
            9 <= max,
    ;
}

fn scan_digits_exec(v: &Vec<char>, from: usize, to: usize, max: u64) -> (r: Result<
    u64,
    IntErrorKind,
>)
    requires
        from <= to <= v.len(),
        9 <= max,
    ensures
        match r {
            Ok(n) => scan_digits(v@.subrange(from as int, to as int), 0, max as int) == Ok::<
                int,
                IntErrorKind,
            >(n as int),
            Err(k) => scan_digits(v@.subrange(from as int, to as int), 0, max as int) == Err::<
                int,
                IntErrorKind,
            >(k),
        },
{
    let mut acc: u64 = 0;
    let mut i = from;
    while i < to
        invariant
            from <= i <= to <= v.len(),
            9 <= max,
            acc <= max,
            scan_digits(v@.subrange(from as int, to as int), 0, max as int) == scan_digits(
                v@.subrange(i as int, to as int),
                acc as int,
                max as int,
            ),
        decreases to - i,
    {
        let c = v[i];
        assert(v@.subrange(i as int, to as int).drop_first() =~= v@.subrange(
            i + 1,
            to as int,
        ));
        if !('0' <= c && c <= '9') {
            return Err(IntErrorKind::InvalidDigit);
        }
        let dv = (c as u32 - '0' as u32) as u64;
        proof {
            lemma_overflow_test(acc as int, dv as int, max as int);
        }
        if acc > (max - dv) / 10 {
            return Err(IntErrorKind::PosOverflow);
        }
        acc = acc * 10 + dv;
        i = i + 1;
    }
    Ok(acc)
}

/// `str::parse` on `v[from..to]` for an unsigned type whose largest value
/// is `max`.
pub fn parse_unsigned_exec(v: &Vec<char>, from: usize, to: usize, max: u64) -> (r: Result<
    u64,
    IntErrorKind,
>)
    requires
        from <= to <= v.len(),
        9 <= max,
    ensures
        match r {
            Ok(n) => parse_unsigned(v@.subrange(from as int, to as int), max as int) == Ok::<
                int,
                IntErrorKind,
            >(n as int),
            Err(k) => parse_unsigned(v@.subrange(from as int, to as int), max as int) == Err::<
                int,
                IntErrorKind,
            >(k),
        },
{
    if from == to {
        return Err(IntErrorKind::Empty);
    }
    let c = v[from];
    if (c == '+' || c == '-') && to - from == 1 {
        return Err(IntErrorKind::InvalidDigit);
    }
    if c == '+' {
        assert(v@.subrange(from as int, to as int).drop_first() =~= v@.subrange(
            from + 1,
            to as int,
        ));
        scan_digits_exec(v, from + 1, to, max)
    } else {
        scan_digits_exec(v, from, to, max)
    }
}

/// `v[from..to].parse::<u32>().ok()`.
pub fn parse_u32(v: &Vec<char>, from: usize, to: usize) -> (r: Option<u32>)
    requires
        from <= to <= v.len(),
    ensures
        r == parse_u32_opt(v@.subrange(from as int, to as int)),
{
    match parse_unsigned_exec(v, from, to, u32::MAX as u64) {
        Ok(n) => {
            proof {
                lemma_bounded_parse(v@.subrange(from as int, to as int), u32::MAX as int);
            }
            Some(n as u32)
        },
        Err(_) => None,
    }
}

/// `v[from..to].parse::<usize>().ok()`.
pub fn parse_usize(v: &Vec<char>, from: usize, to: usize) -> (r: Option<usize>)
    requires
        from <= to <= v.len(),
    ensures
        r == parse_usize_opt(v@.subrange(from as int, to as int)),
{
    match parse_unsigned_exec(v, from, to, usize::MAX as u64) {
        Ok(n) => {
            proof {
                lemma_bounded_parse(v@.subrange(from as int, to as int), usize::MAX as int);
            }
            Some(n as usize)
        },
        Err(_) => None,
    }
}

/// A parsed value never exceeds the largest value of the type.
pub proof fn lemma_bounded_parse(s: Seq<char>, max: int)
    requires
        0 <= max,
    ensures
        parse_unsigned(s, max) matches Ok(n) ==> 0 <= n <= max,
{
    if s.len() > 0 && s[0] == '+' {
        lemma_scan_bounded(s.drop_first(), 0, max);
    } else {
        lemma_scan_bounded(s, 0, max);
    }
}

// ---------------------------------------------------------------------
// UTF-8 byte lengths
// ---------------------------------------------------------------------

/// The number of bytes that UTF-8 takes for `c`.
pub open spec fn utf8_width(c: char) -> nat {
    let u = c as u32;
    if u < 0x80 {
        1
    } else if u < 0x800 {
        2
    } else if u < 0x10000 {
        3
    } else {
        4
    }
}

/// The UTF-8 length of `s` in bytes (`str::len`).
pub open spec fn byte_len(s: Seq<char>) -> nat
    decreases s.len(),
{
    if s.len() == 0 {
        0
    } else {
        byte_len(s.drop_last()) + utf8_width(s.last())
    }
}

/// The longest prefix of `s` whose UTF-8 encoding takes at most `n` bytes.
pub open spec fn take_bytes(s: Seq<char>, n: nat) -> Seq<char>
    decreases s.len(),
{
    if s.len() == 0 || utf8_width(s[0]) > n {
        Seq::empty()
    } else {
        seq![s[0]] + take_bytes(s.drop_first(), (n - utf8_width(s[0])) as nat)
    }
}

/// Whether byte offset `n` of the UTF-8 encoding of `s` falls between two
/// characters (or at either end), so that `&s[..n]` does not panic.
pub open spec fn is_char_boundary(s: Seq<char>, n: nat) -> bool {
    byte_len(take_bytes(s, n)) == n
}

/// The UTF-8 width of `c` in bytes.
pub fn char_width(c: char) -> (w: usize)
    ensures
        w == utf8_width(c),
{
    let u = c as u32;
    if u < 0x80 {
        1
    } else if u < 0x800 {
        2
    } else if u < 0x10000 {
        3
    } else {
        4
    }
}

proof fn lemma_byte_len_push(s: Seq<char>, c: char)
    ensures
        byte_len(s.push(c)) == byte_len(s) + utf8_width(c),
{
    assert(s.push(c).drop_last() =~= s);
}

/// Whether `v` takes more than `n` bytes in UTF-8.
pub fn exceeds_bytes(v: &Vec<char>, n: usize) -> (r: bool)
    requires
        n < usize::MAX - 4,
    ensures
        r == (byte_len(v@) > n),
{
    let mut total: usize = 0;
    let mut i: usize = 0;
    while i < v.len()
        invariant
            i <= v.len(),
            n < usize::MAX - 4,
            total == byte_len(v@.take(i as int)),
            total <= n,
        decreases v.len() - i,
    {
        proof {
            assert(v@.take(i + 1) =~= v@.take(i as int).push(v@[i as int]));
            lemma_byte_len_push(v@.take(i as int), v@[i as int]);
        }
        total = total + char_width(v[i]);
        i = i + 1;
        if total > n {
            proof {
                lemma_byte_len_prefix_le(v@, i as int);
            }
            return true;
        }
    }
    assert(v@.take(i as int) =~= v@);
    false
}

/// A prefix never takes more bytes than the whole.
pub proof fn lemma_byte_len_prefix_le(s: Seq<char>, k: int)
    requires
        0 <= k <= s.len(),
    ensures
        byte_len(s.take(k)) <= byte_len(s),
    decreases s.len() - k,
{
    if k < s.len() {
        lemma_byte_len_prefix_le(s, k + 1);
        assert(s.take(k + 1) =~= s.take(k).push(s[k]));
        lemma_byte_len_push(s.take(k), s[k]);
    } else {
        assert(s.take(k) =~= s);
    }
}

/// The number of characters of `v[from..]` that fit in `n` bytes
/// (`take_bytes`), and whether they fill the `n` bytes exactly.
pub fn chars_in_bytes(v: &Vec<char>, n: usize) -> (r: (usize, bool))
    ensures
        r.0 <= v.len(),
        take_bytes(v@, n as nat) == v@.take(r.0 as int),
        r.1 == is_char_boundary(v@, n as nat),
{
    let mut i: usize = 0;
    let mut left: usize = n;
    assert(v@.skip(0) =~= v@);
    assert(v@.take(0) + take_bytes(v@, n as nat) =~= take_bytes(v@, n as nat));
    assert(v@.take(0) =~= Seq::<char>::empty());
    while i < v.len() && char_width(v[i]) <= left
        invariant
            i <= v.len(),
            left <= n,
            take_bytes(v@, n as nat) == v@.take(i as int) + take_bytes(
                v@.skip(i as int),
                left as nat,
            ),
            byte_len(v@.take(i as int)) + left == n,
        decreases v.len() - i,
    {
        let w = char_width(v[i]);
        proof {
            assert(v@.skip(i as int).drop_first() =~= v@.skip(i + 1));
            assert(v@.take(i + 1) =~= v@.take(i as int).push(v@[i as int]));
            assert(v@.take(i as int) + seq![v@[i as int]] =~= v@.take(i + 1));
            lemma_byte_len_push(v@.take(i as int), v@[i as int]);
        }
        left = left - w;
        i = i + 1;
    }
    assert(v@.take(i as int) + Seq::<char>::empty() =~= v@.take(i as int));
    (i, left == 0)
}

/// `s` cut down for display: where it takes more than `max` bytes, its
/// first `keep` bytes and `...`.
pub open spec fn shorten(s: Seq<char>, max: nat, keep: nat) -> Seq<char> {
    if byte_len(s) > max {
        take_bytes(s, keep) + "..."@
    } else {
        s
    }
}

/// Whether `shorten(s, max, keep)` cuts `s` between two characters (the
/// slice `&s[..keep]` panics otherwise).
pub open spec fn cuts_cleanly(s: Seq<char>, max: nat, keep: nat) -> bool {
    byte_len(s) > max ==> is_char_boundary(s, keep)
}

/// Whether shortening `s` to `keep` bytes cuts it between two characters.
pub fn cuts_cleanly_exec(s: &String, max: usize, keep: usize) -> (r: bool)
    requires
        max < usize::MAX - 4,
    ensures
        r == cuts_cleanly(s@, max as nat, keep as nat),
{
    let v = chars_of(s.as_str());
    if exceeds_bytes(&v, max) {
        let (_, ok) = chars_in_bytes(&v, keep);
        ok
    } else {
        true
    }
}

/// Appends `shorten(s, max, keep)` to `out`.
pub fn push_shortened(out: &mut String, s: &String, max: usize, keep: usize)
    requires
        max < usize::MAX - 4,
        cuts_cleanly(s@, max as nat, keep as nat),
    ensures
        final(out)@ == old(out)@ + shorten(s@, max as nat, keep as nat),
{
    let v = chars_of(s.as_str());
    if exceeds_bytes(&v, max) {
        let (k, _) = chars_in_bytes(&v, keep);
        push_chars(out, &v, 0, k);
        out.append("...");
        assert(v@.subrange(0, k as int) =~= v@.take(k as int));
        assert(old(out)@ + v@.take(k as int) + "..."@ =~= old(out)@ + (take_bytes(
            s@,
            keep as nat,
        ) + "..."@));
    } else {
        push_string(out, s);
    }
}

/// Whether byte offset `n` falls between two characters of `s`
/// (`str::is_char_boundary`).
pub fn char_boundary(s: &str, n: usize) -> (r: bool)
    ensures
        r == is_char_boundary(s@, n as nat),
{
    let v = chars_of(s);
    let (_, ok) = chars_in_bytes(&v, n);
    ok
}

// ---------------------------------------------------------------------
// HTML escaping
// ---------------------------------------------------------------------

/// The HTML escape of one character: `&`, `<` and `>` become entities.
pub open spec fn escape_char(c: char) -> Seq<char> {
    if c == '&' {
        "&amp;"@
    } else if c == '<' {
        "&lt;"@
    } else if c == '>' {
        "&gt;"@
    } else {
        seq![c]
    }
}

/// `s.replace('&', "&amp;").replace('<', "&lt;").replace('>', "&gt;")`.
pub open spec fn escape_html(s: Seq<char>) -> Seq<char>
    decreases s.len(),
{
    if s.len() == 0 {
        Seq::empty()
    } else {
        escape_html(s.drop_last()) + escape_char(s.last())
    }
}

/// Appends the HTML escape of `t` to `out`.
pub fn push_escaped(out: &mut String, t: &String)
    ensures
        final(out)@ == old(out)@ + escape_html(t@),
{
    let v = chars_of(t.as_str());
    let mut i: usize = 0;
    while i < v.len()
        invariant
            i <= v.len(),
            v@ == t@,
            out@ == old(out)@ + escape_html(v@.take(i as int)),
        decreases v.len() - i,
    {
        let c = v[i];
        let ghost before = out@;
        if c == '&' {
            out.append("&amp;");
        } else if c == '<' {
            out.append("&lt;");
        } else if c == '>' {
            out.append("&gt;");
        } else {
            push_char(out, c);
        }
        proof {
            assert(v@.take(i + 1).drop_last() =~= v@.take(i as int));
            assert(out@ =~= before + escape_char(c));
        }
        i = i + 1;
    }
    assert(v@.take(i as int) =~= v@);
}

/// Byte lengths add up over concatenation.
pub proof fn lemma_byte_len_concat(a: Seq<char>, b: Seq<char>)
    ensures
        byte_len(a + b) == byte_len(a) + byte_len(b),
    decreases b.len(),
{
    if b.len() == 0 {
        assert(a + b =~= a);
    } else {
        lemma_byte_len_concat(a, b.drop_last());
        assert((a + b).drop_last() =~= a + b.drop_last());
    }
}

/// No character takes more than four bytes.
pub proof fn lemma_byte_len_at_most_four(s: Seq<char>)
    ensures
        byte_len(s) <= 4 * s.len(),
    decreases s.len(),
{
    if s.len() > 0 {
        lemma_byte_len_at_most_four(s.drop_last());
    }
}

/// The prefix that fits in `n` bytes takes at most `n` bytes.
pub proof fn lemma_take_bytes_fits(s: Seq<char>, n: nat)
    ensures
        byte_len(take_bytes(s, n)) <= n,
    decreases s.len(),
{
    if s.len() > 0 && utf8_width(s[0]) <= n {
        let rest = take_bytes(s.drop_first(), (n - utf8_width(s[0])) as nat);
        lemma_take_bytes_fits(s.drop_first(), (n - utf8_width(s[0])) as nat);
        lemma_byte_len_concat(seq![s[0]], rest);
        assert(seq![s[0]].drop_last() =~= Seq::<char>::empty());
        assert(byte_len(Seq::<char>::empty()) == 0);
        assert(byte_len(seq![s[0]]) == utf8_width(s[0]));
        assert(take_bytes(s, n) == seq![s[0]] + rest);
    }
}

/// Ten to the power `k`.
pub open spec fn pow10(k: nat) -> nat
    decreases k,
{
    if k == 0 {
        1
    } else {
        10 * pow10((k - 1) as nat)
    }
}

/// A number below `10^k` has at most `k` digits.
pub proof fn lemma_decimal_len(n: nat, k: nat)
    requires
        n < pow10(k),
        k >= 1,
    ensures
        decimal(n).len() <= k,
    decreases k,
{
    if n >= 10 {
        assert(k >= 2) by {
            if k == 1 {
                assert(pow10(1) == 10 * pow10(0));
            }
        }
        assert(n / 10 < pow10((k - 1) as nat));
        lemma_decimal_len(n / 10, (k - 1) as nat);
    }
}

/// Any `u64` has at most twenty digits.
pub proof fn lemma_decimal_len_u64(n: nat)
    requires
        n <= u64::MAX,
    ensures
        decimal(n).len() <= 20,
{
    reveal_with_fuel(pow10, 21);
    assert(pow10(20) == 100000000000000000000nat);
    lemma_decimal_len(n, 20);
}

/// Escaping leaves no `<` or `>` in the text.
pub proof fn lemma_escape_html_no_markup(s: Seq<char>)
    ensures
        forall|i: int|
            0 <= i < escape_html(s).len() ==> #[trigger] escape_html(s)[i] != '<'
                && escape_html(s)[i] != '>',
    decreases s.len(),
{
    if s.len() > 0 {
        lemma_escape_html_no_markup(s.drop_last());
        reveal_strlit("&amp;");
        reveal_strlit("&lt;");
        reveal_strlit("&gt;");
        let a = escape_html(s.drop_last());
        let b = escape_char(s.last());
        assert forall|i: int| 0 <= i < (a + b).len() implies #[trigger] (a + b)[i] != '<' && (a
            + b)[i] != '>' by {
            if i >= a.len() {
                assert((a + b)[i] == b[i - a.len()]);
            } else {
                assert((a + b)[i] == a[i]);
            }
        }
    }
}

/// The prefix of a text that its whole byte length allows is the text.
pub proof fn lemma_take_all_bytes(s: Seq<char>)
    ensures
        take_bytes(s, byte_len(s)) == s,
    decreases s.len(),
{
    if s.len() > 0 {
        let rest = s.drop_first();
        assert(seq![s[0]] + rest =~= s);
        lemma_byte_len_concat(seq![s[0]], rest);
        let one = seq![s[0]];
        assert(one.drop_last() =~= Seq::<char>::empty());
        assert(byte_len(one.drop_last()) == 0);
        assert(one.last() == s[0]);
        assert(byte_len(one) == utf8_width(s[0]));
        lemma_take_all_bytes(rest);
    }
}

} // verus!
