//! Texts as sequences of characters: comparing, searching, trimming.

use vstd::prelude::*;
use vstd::string::StrSliceExecFns;
use vstd::utf8::is_ascii_chars;

verus! {

/// The text in an optional string.
pub open spec fn opt_text(text: Option<String>) -> Option<Seq<char>> {
    match text {
        Some(t) => Some(t@),
        None => None,
    }
}

/// An optional string has a text exactly where it is there, and it is the whole of it.
pub proof fn law_optional_text(text: Option<String>)
    ensures
        text matches Some(t) ==> opt_text(text) == Some(t@),
        text is None ==> opt_text(text) is None,
{
}

/// The first value that `f` gives on an element of `s`, from the left.
pub open spec fn find_map<A, B>(s: Seq<A>, f: spec_fn(A) -> Option<B>) -> Option<B>
    decreases s.len(),
{
    if s.len() == 0 {
        None
    } else {
        match f(s[0]) {
            Some(b) => Some(b),
            None => find_map(s.drop_first(), f),
        }
    }
}

/// A value is found exactly when `f` gives one somewhere, and it is the one that `f`
/// gives on the leftmost element on which it gives any.
pub proof fn law_find_map_is_leftmost<A, B>(s: Seq<A>, f: spec_fn(A) -> Option<B>)
    ensures
        match find_map(s, f) {
            Some(b) => exists|i: int|
                0 <= i < s.len() && #[trigger] f(s[i]) == Some(b) && forall|j: int|
                    0 <= j < i ==> #[trigger] f(s[j]) is None,
            None => forall|i: int| 0 <= i < s.len() ==> #[trigger] f(s[i]) is None,
        },
    decreases s.len(),
{
    if s.len() > 0 {
        let rest = s.drop_first();
        if f(s[0]) is None {
            law_find_map_is_leftmost(rest, f);
            match find_map(rest, f) {
                Some(b) => {
                    let i = choose|i: int|
                        0 <= i < rest.len() && #[trigger] f(rest[i]) == Some(b) && forall|j: int|
                            0 <= j < i ==> #[trigger] f(rest[j]) is None;
                    assert(rest[i] == s[i + 1]);
                    assert forall|j: int| 0 <= j < i + 1 implies #[trigger] f(s[j]) is None by {
                        if j > 0 {
                            assert(rest[j - 1] == s[j]);
                        }
                    }
                },
                None => {
                    assert forall|i: int| 0 <= i < s.len() implies #[trigger] f(s[i]) is None by {
                        if i > 0 {
                            assert(rest[i - 1] == s[i]);
                        }
                    }
                },
            }
        }
    }
}

/// Where the search stands after `i` elements that gave nothing.
pub proof fn lemma_find_map_step<A, B>(s: Seq<A>, f: spec_fn(A) -> Option<B>, i: int)
    requires
        0 <= i < s.len(),
    ensures
        find_map(s.skip(i), f) == match f(s[i]) {
            Some(b) => Some(b),
            None => find_map(s.skip(i + 1), f),
        },
{
    assert(s.skip(i).drop_first() =~= s.skip(i + 1));
}

/// The characters of a text.
pub fn chars_of(text: &str) -> (chars: Vec<char>)
    ensures
        chars@ == text@,
{
    let mut chars: Vec<char> = Vec::new();
    for c in iter: text.chars()
        invariant
            iter.seq() == text@,
            chars@ =~= iter.seq().take(iter.index() as int),
    {
        chars.push(c);
    }
    chars
}

/// Whether two texts are the same.
pub fn same_text(a: &str, b: &str) -> (same: bool)
    ensures
        same == (a@ == b@),
{
    a.to_owned() == b.to_owned()
}

/// Whether a text ends with another.
pub fn ends_with(text: &str, ending: &str) -> (ends: bool)
    ensures
        ends == ending@.is_suffix_of(text@),
{
    let whole = chars_of(text);
    let tail = chars_of(ending);
    if tail.len() > whole.len() {
        return false;
    }
    let start: usize = whole.len() - tail.len();
    let mut i: usize = 0;
    while i < tail.len()
        invariant
            i <= tail@.len(),
            start + tail.len() == whole.len(),
            whole@ == text@,
            tail@ == ending@,
            forall|j: int| 0 <= j < i ==> tail@[j] == whole@[start + j],
        decreases tail@.len() - i,
    {
        if tail[i] != whole[start + i] {
            assert(whole@.subrange(start as int, whole@.len() as int)[i as int] != tail@[i as int]);
            return false;
        }
        i += 1;
    }
    assert(tail@ =~= whole@.subrange(start as int, whole@.len() as int));
    true
}

/// Whether `part` stands in `s` from position `i` on.
pub open spec fn occurs_at(s: Seq<char>, part: Seq<char>, i: int) -> bool {
    &&& 0 <= i
    &&& i + part.len() <= s.len()
    &&& s.subrange(i, i + part.len()) == part
}

/// Whether `part` stands somewhere in `s`.
pub open spec fn occurs(s: Seq<char>, part: Seq<char>) -> bool {
    exists|i: int| occurs_at(s, part, i)
}

/// A text stands in another exactly where that is made up of something, the text and
/// something else.
pub proof fn law_occurs_between_two_parts(s: Seq<char>, part: Seq<char>)
    ensures
        occurs(s, part) <==> exists|a: Seq<char>, b: Seq<char>| s == #[trigger] (a + part + b),
{
    if occurs(s, part) {
        let i = choose|i: int| occurs_at(s, part, i);
        let a = s.take(i);
        let b = s.skip(i + part.len());
        assert(s.subrange(i, i + part.len()) == part);
        assert(s =~= a + part + b) by {
            assert forall|k: int| 0 <= k < s.len() implies s[k] == (a + part + b)[k] by {
                if i <= k < i + part.len() {
                    assert(s.subrange(i, i + part.len())[k - i] == part[k - i]);
                }
            }
        }
    }
    if exists|a: Seq<char>, b: Seq<char>| s == #[trigger] (a + part + b) {
        let (a, b) = choose|a: Seq<char>, b: Seq<char>| s == #[trigger] (a + part + b);
        let i = a.len() as int;
        assert(s.subrange(i, i + part.len()) =~= part);
        assert(occurs_at(s, part, i));
    }
}

/// Whether a text has another somewhere in it.
pub fn contains(text: &str, part: &str) -> (found: bool)
    ensures
        found == occurs(text@, part@),
{
    let whole = chars_of(text);
    let piece = chars_of(part);
    if piece.len() > whole.len() {
        return false;
    }
    let last: usize = whole.len() - piece.len();
    let mut i: usize = 0;
    loop
        invariant
            i <= last,
            last + piece.len() == whole.len(),
            whole@ == text@,
            piece@ == part@,
            forall|k: int| 0 <= k < i ==> !occurs_at(whole@, piece@, k),
        decreases last - i,
    {
        let mut j: usize = 0;
        while j < piece.len() && piece[j] == whole[i + j]
            invariant
                i <= last,
                last + piece.len() == whole.len(),
                j <= piece@.len(),
                forall|k: int| 0 <= k < j ==> piece@[k] == whole@[i + k],
            decreases piece@.len() - j,
        {
            j += 1;
        }
        if j == piece.len() {
            assert(whole@.subrange(i as int, i + piece@.len()) =~= piece@);
            assert(occurs_at(whole@, piece@, i as int));
            return true;
        }
        assert(!occurs_at(whole@, piece@, i as int)) by {
            assert(whole@.subrange(i as int, i + piece@.len())[j as int] != piece@[j as int]);
        }
        if i == last {
            assert(!occurs(text@, part@)) by {
                assert forall|k: int| !occurs_at(text@, part@, k) by {
                    if 0 <= k && k + piece@.len() <= whole@.len() {
                        assert(k <= i);
                    }
                }
            }
            return false;
        }
        i += 1;
    }
}

/// Where `c` stands last in `s`; `-1` where it stands nowhere.
pub open spec fn last_index(s: Seq<char>, c: char) -> int
    decreases s.len(),
{
    if s.len() == 0 {
        -1
    } else if s.last() == c {
        s.len() - 1
    } else {
        last_index(s.drop_last(), c)
    }
}

/// What stands behind the last `c` of `s`.
pub open spec fn after_last(s: Seq<char>, c: char) -> Option<Seq<char>> {
    if last_index(s, c) < 0 {
        None
    } else {
        Some(s.skip(last_index(s, c) + 1))
    }
}

/// What stands behind the last `c` has no `c` in it, and with a `c` before it is how the
/// text ends; there is nothing behind a last `c` exactly where the text has none.
pub proof fn law_after_last_is_the_rest(s: Seq<char>, c: char)
    ensures
        match after_last(s, c) {
            Some(rest) => !rest.contains(c) && (seq![c] + rest).is_suffix_of(s),
            None => !s.contains(c),
        },
    decreases s.len(),
{
    if s.len() > 0 && s.last() != c {
        law_after_last_is_the_rest(s.drop_last(), c);
        match after_last(s, c) {
            Some(rest) => {
                let shorter = after_last(s.drop_last(), c)->0;
                let k = last_index(s.drop_last(), c);
                lemma_last_index_range(s.drop_last(), c);
                assert(rest =~= shorter.push(s.last()));
                assert((seq![c] + rest) =~= (seq![c] + shorter).push(s.last()));
                assert((seq![c] + rest) =~= s.subrange(k, s.len() as int)) by {
                    assert((seq![c] + shorter) =~= s.drop_last().subrange(k, s.len() - 1));
                }
                assert(!rest.contains(c)) by {
                    assert forall|i: int| 0 <= i < rest.len() implies rest[i] != c by {
                        if i < shorter.len() {
                            assert(shorter.contains(shorter[i]));
                        }
                    }
                }
            },
            None => {
                assert forall|i: int| 0 <= i < s.len() implies s[i] != c by {
                    if i < s.len() - 1 {
                        assert(s.drop_last().contains(s.drop_last()[i]));
                    }
                }
            },
        }
    } else if s.len() > 0 {
        let rest = after_last(s, c)->0;
        assert(rest =~= Seq::<char>::empty());
        assert((seq![c] + rest) =~= s.subrange(s.len() - 1, s.len() as int));
    }
}

/// The last index of a character is a position of the text, or `-1`.
pub proof fn lemma_last_index_range(s: Seq<char>, c: char)
    ensures
        -1 <= last_index(s, c) < s.len(),
        last_index(s, c) >= 0 ==> s[last_index(s, c)] == c,
    decreases s.len(),
{
    if s.len() > 0 && s.last() != c {
        lemma_last_index_range(s.drop_last(), c);
    }
}

/// Whatever stands in front, what follows a `c` and has none in it is what stands behind the
/// last one; without a `c` there is nothing of the kind.
pub proof fn law_rest_stands_behind_the_last(front: Seq<char>, c: char, rest: Seq<char>)
    ensures
        !rest.contains(c) ==> after_last(front + seq![c] + rest, c) == Some(rest),
        !rest.contains(c) ==> after_last(rest, c) is None,
{
    let s = front + seq![c] + rest;
    law_after_last_is_the_rest(s, c);
    law_after_last_is_the_rest(rest, c);
    lemma_last_index_range(s, c);
    lemma_last_index_range(rest, c);
    assert(s[front.len() as int] == c);
    assert(s.contains(c));
    let k = last_index(s, c);
    let found = after_last(s, c)->0;
    if !rest.contains(c) {
        if k > front.len() {
            assert(rest[k - front.len() - 1] == c);
        } else if k < front.len() {
            assert(found[front.len() - k - 1] == c);
        }
        assert(found =~= rest);
        if last_index(rest, c) >= 0 {
            assert(rest.contains(rest[last_index(rest, c)]));
        }
    }
}

/// What stands behind the last `c` of a text.
pub fn behind_last(text: &str, c: char) -> (rest: Option<String>)
    ensures
        opt_text(rest) == after_last(text@, c),
{
    let chars = chars_of(text);
    let mut end: usize = chars.len();
    assert(text@.take(end as int) =~= text@);
    while end > 0
        invariant
            end <= chars@.len(),
            chars@ == text@,
            last_index(text@.take(end as int), c) == last_index(text@, c),
        decreases end,
    {
        let ghost left = text@.take(end as int);
        assert(left.drop_last() =~= text@.take(end - 1));
        if chars[end - 1] == c {
            let rest = text.substring_char(end, chars.len()).to_owned();
            assert(rest@ =~= text@.skip(end as int));
            return Some(rest);
        }
        end -= 1;
    }
    None
}

/// The characters with the Unicode property `White_Space`.
pub open spec fn white_space(c: char) -> bool {
    ||| '\u{9}' <= c <= '\u{d}'
    ||| c == ' '
    ||| c == '\u{85}'
    ||| c == '\u{a0}'
    ||| c == '\u{1680}'
    ||| '\u{2000}' <= c <= '\u{200a}'
    ||| c == '\u{2028}'
    ||| c == '\u{2029}'
    ||| c == '\u{202f}'
    ||| c == '\u{205f}'
    ||| c == '\u{3000}'
}

/// White space are the 25 characters with these numbers.
pub proof fn law_white_space_by_number(c: char)
    ensures
        white_space(c) <==> {
            let n = c as u32;
            ||| 0x9 <= n <= 0xd
            ||| n == 0x20
            ||| n == 0x85
            ||| n == 0xa0
            ||| n == 0x1680
            ||| 0x2000 <= n <= 0x200a
            ||| 0x2028 <= n <= 0x2029
            ||| n == 0x202f
            ||| n == 0x205f
            ||| n == 0x3000
        },
{
}

/// Whether a character has the Unicode property `White_Space`.
pub fn is_white_space(c: char) -> (white: bool)
    ensures
        white == white_space(c),
{
    ('\u{9}' <= c && c <= '\u{d}') || c == ' ' || c == '\u{85}' || c == '\u{a0}' || c
        == '\u{1680}' || ('\u{2000}' <= c && c <= '\u{200a}') || c == '\u{2028}' || c == '\u{2029}'
        || c == '\u{202f}' || c == '\u{205f}' || c == '\u{3000}'
}

/// Whether a text has white space alone.
pub open spec fn all_white(s: Seq<char>) -> bool {
    forall|i: int| 0 <= i < s.len() ==> white_space(#[trigger] s[i])
}

/// `s` without the white space that it starts with.
pub open spec fn trimmed_start(s: Seq<char>) -> Seq<char>
    decreases s.len(),
{
    if s.len() > 0 && white_space(s[0]) {
        trimmed_start(s.drop_first())
    } else {
        s
    }
}

/// `s` without the white space that it ends with.
pub open spec fn trimmed_end(s: Seq<char>) -> Seq<char>
    decreases s.len(),
{
    if s.len() > 0 && white_space(s.last()) {
        trimmed_end(s.drop_last())
    } else {
        s
    }
}

/// `s` without the white space at its two ends.
pub open spec fn trimmed(s: Seq<char>) -> Seq<char> {
    trimmed_end(trimmed_start(s))
}

/// A text without the white space at its two ends.
pub fn trim(text: &str) -> (inner: String)
    ensures
        inner@ == trimmed(text@),
{
    let chars = chars_of(text);
    let mut start: usize = 0;
    assert(text@.skip(0) =~= text@);
    while start < chars.len() && is_white_space(chars[start])
        invariant
            chars@ == text@,
            start <= chars@.len(),
            trimmed_start(text@.skip(start as int)) == trimmed_start(text@),
        decreases chars@.len() - start,
    {
        assert(text@.skip(start as int).drop_first() =~= text@.skip(start + 1));
        start += 1;
    }
    let ghost front = text@.skip(start as int);
    assert(front == trimmed_start(text@));
    let mut end: usize = chars.len();
    assert(text@.subrange(start as int, end as int) =~= front);
    while end > start && is_white_space(chars[end - 1])
        invariant
            chars@ == text@,
            start <= end <= chars@.len(),
            trimmed_end(text@.subrange(start as int, end as int)) == trimmed_end(front),
        decreases end,
    {
        assert(text@.subrange(start as int, end as int).drop_last() =~= text@.subrange(
            start as int,
            end - 1,
        ));
        end -= 1;
    }
    text.substring_char(start, end).to_owned()
}

/// What is left after trimming neither starts nor ends with white space, and trimming it
/// again changes nothing; nothing is left exactly of a text of white space alone.
pub proof fn law_trimmed_has_no_white_ends(s: Seq<char>)
    ensures
        trimmed(s).len() > 0 ==> !white_space(trimmed(s)[0]) && !white_space(trimmed(s).last()),
        trimmed(trimmed(s)) == trimmed(s),
        trimmed(s).len() == 0 <==> all_white(s),
{
    lemma_trimmed_start(s);
    lemma_trimmed_end(trimmed_start(s));
    let front = trimmed_start(s);
    let inner = trimmed(s);
    if inner.len() > 0 {
        assert(inner[0] == front[0]);
        assert(!white_space(front[0]));
        let k = choose|k: int| 0 <= k <= s.len() && front == s.skip(k);
        assert(s[k] == front[0]);
    } else {
        if front.len() > 0 {
            assert(white_space(front[0]));
        }
    }
}

/// Trimming takes white space off the two ends and nothing else: the text is what is left,
/// with white space alone on either side.
pub proof fn law_trimmed_is_the_inside(s: Seq<char>)
    ensures
        exists|a: Seq<char>, b: Seq<char>|
            {
                &&& s == #[trigger] (a + trimmed(s) + b)
                &&& forall|i: int| 0 <= i < a.len() ==> white_space(#[trigger] a[i])
                &&& forall|i: int| 0 <= i < b.len() ==> white_space(#[trigger] b[i])
            },
{
    let a = lemma_trimmed_start_rest(s);
    let b = lemma_trimmed_end_rest(trimmed_start(s));
    assert(s =~= a + trimmed(s) + b);
}

/// White space at the ends does not matter: whatever has none at its own ends is what is
/// left between two stretches of white space.
pub proof fn law_white_ends_come_off(a: Seq<char>, inner: Seq<char>, b: Seq<char>)
    requires
        forall|i: int| 0 <= i < a.len() ==> white_space(#[trigger] a[i]),
        forall|i: int| 0 <= i < b.len() ==> white_space(#[trigger] b[i]),
        inner.len() > 0 ==> !white_space(inner[0]) && !white_space(inner.last()),
    ensures
        trimmed(a + inner + b) == inner,
{
    let s = a + inner + b;
    law_trimmed_has_no_white_ends(s);
    if inner.len() == 0 {
        assert(all_white(s));
        assert(trimmed(s) =~= inner);
    } else {
        assert(s =~= a + (inner + b));
        lemma_trimmed_start_skips(a, inner + b);
        assert((inner + b)[0] == inner[0]);
        lemma_trimmed_end_skips(inner, b);
    }
}

proof fn lemma_trimmed_start_rest(s: Seq<char>) -> (a: Seq<char>)
    ensures
        s == a + trimmed_start(s),
        all_white(a),
    decreases s.len(),
{
    if s.len() > 0 && white_space(s[0]) {
        let a = lemma_trimmed_start_rest(s.drop_first());
        let longer = seq![s[0]] + a;
        assert(s =~= seq![s[0]] + s.drop_first());
        assert(longer + trimmed_start(s) =~= seq![s[0]] + (a + trimmed_start(s)));
        assert forall|i: int| 0 <= i < longer.len() implies white_space(#[trigger] longer[i]) by {
            if i > 0 {
                assert(longer[i] == a[i - 1]);
            }
        }
        longer
    } else {
        assert(s =~= Seq::empty() + s);
        Seq::empty()
    }
}

proof fn lemma_trimmed_end_rest(s: Seq<char>) -> (b: Seq<char>)
    ensures
        s == trimmed_end(s) + b,
        all_white(b),
    decreases s.len(),
{
    if s.len() > 0 && white_space(s.last()) {
        let b = lemma_trimmed_end_rest(s.drop_last());
        let longer = b.push(s.last());
        assert(s =~= s.drop_last().push(s.last()));
        assert(trimmed_end(s) + longer =~= (trimmed_end(s) + b).push(s.last()));
        assert forall|i: int| 0 <= i < longer.len() implies white_space(#[trigger] longer[i]) by {
            if i < b.len() {
                assert(longer[i] == b[i]);
            }
        }
        longer
    } else {
        assert(s =~= s + Seq::empty());
        Seq::empty()
    }
}

proof fn lemma_trimmed_start_skips(a: Seq<char>, rest: Seq<char>)
    requires
        all_white(a),
    ensures
        trimmed_start(a + rest) == trimmed_start(rest),
    decreases a.len(),
{
    if a.len() == 0 {
        assert(a + rest =~= rest);
    } else {
        assert((a + rest)[0] == a[0]);
        assert((a + rest).drop_first() =~= a.drop_first() + rest);
        assert(all_white(a.drop_first())) by {
            assert forall|i: int| 0 <= i < a.drop_first().len() implies white_space(
                #[trigger] a.drop_first()[i],
            ) by {
                assert(a.drop_first()[i] == a[i + 1]);
            }
        }
        lemma_trimmed_start_skips(a.drop_first(), rest);
    }
}

proof fn lemma_trimmed_end_skips(inner: Seq<char>, b: Seq<char>)
    requires
        all_white(b),
        inner.len() > 0,
        !white_space(inner.last()),
    ensures
        trimmed_end(inner + b) == inner,
    decreases b.len(),
{
    if b.len() == 0 {
        assert(inner + b =~= inner);
    } else {
        assert((inner + b).last() == b.last());
        assert((inner + b).drop_last() =~= inner + b.drop_last());
        assert(all_white(b.drop_last())) by {
            assert forall|i: int| 0 <= i < b.drop_last().len() implies white_space(
                #[trigger] b.drop_last()[i],
            ) by {
                assert(b.drop_last()[i] == b[i]);
            }
        }
        lemma_trimmed_end_skips(inner, b.drop_last());
    }
}

proof fn lemma_trimmed_start(s: Seq<char>)
    ensures
        trimmed_start(s).len() > 0 ==> !white_space(trimmed_start(s)[0]),
        exists|k: int|
            0 <= k <= s.len() && trimmed_start(s) == #[trigger] s.skip(k),
        trimmed_start(s).len() == 0 ==> all_white(s),
    decreases s.len(),
{
    if s.len() > 0 && white_space(s[0]) {
        let rest = s.drop_first();
        lemma_trimmed_start(rest);
        let k = choose|k: int|
            0 <= k <= rest.len() && trimmed_start(rest) == #[trigger] rest.skip(k);
        assert(rest.skip(k) =~= s.skip(k + 1));
        if trimmed_start(s).len() == 0 {
            assert forall|i: int| 0 <= i < s.len() implies white_space(#[trigger] s[i]) by {
                if i > 0 {
                    assert(rest[i - 1] == s[i]);
                }
            }
        }
    } else {
        assert(s.skip(0) =~= s);
    }
}

proof fn lemma_trimmed_end(s: Seq<char>)
    ensures
        trimmed_end(s).len() > 0 ==> !white_space(trimmed_end(s).last()),
        trimmed_end(s).is_prefix_of(s),
        trimmed_end(s).len() == 0 ==> all_white(s),
    decreases s.len(),
{
    if s.len() > 0 && white_space(s.last()) {
        let rest = s.drop_last();
        lemma_trimmed_end(rest);
        if trimmed_end(s).len() == 0 {
            assert forall|i: int| 0 <= i < s.len() implies white_space(#[trigger] s[i]) by {
                if i < s.len() - 1 {
                    assert(rest[i] == s[i]);
                }
            }
        }
    }
}

/// `str::to_lowercase` on a text.
pub uninterp spec fn lowercase(s: Seq<char>) -> Seq<char>;

/// The lower case of an ASCII character.
pub open spec fn ascii_lower(c: char) -> char {
    if 'A' <= c <= 'Z' {
        (c as u32 + 32) as char
    } else {
        c
    }
}

/// The 26 capital letters of ASCII become the small ones, 32 further on; every other
/// character stays as it is.
pub proof fn law_ascii_lower_by_number(c: char)
    ensures
        65 <= c as u32 <= 90 ==> ascii_lower(c) as u32 == c as u32 + 32,
        !(65 <= c as u32 <= 90) ==> ascii_lower(c) == c,
{
}

/// `str::to_lowercase` goes by the text alone, and turns an ASCII text into one of the
/// same length with each of its letters in lower case. What it makes of other
/// characters is Unicode's mapping.
pub assume_specification[ str::to_lowercase ](s: &str) -> (lower: String)
    ensures
        lower@ == lowercase(s@),
        is_ascii_chars(s@) ==> lower@ == s@.map_values(|c: char| ascii_lower(c)),
;

} // verus!
