//! Text as sequences of characters, and the few operations on it that the
//! rules of the engine are written in.

use vstd::prelude::*;

verus! {

/// `String::push` appends one character.
pub assume_specification[ String::push ](s: &mut String, c: char)
    ensures
        final(s)@ == old(s)@.push(c),
;

/// Two string slices are equal when they hold the same characters.
pub assume_specification[ <str as PartialEq>::eq ](a: &str, b: &str) -> (same: bool)
    ensures
        same == (a@ == b@),
;

/// Whether a character has the Unicode property White_Space: the controls
/// from tab to carriage return, the space, the next-line control, the
/// no-break space, and the spaces and separators beyond them.
pub open spec fn is_white_space(c: char) -> bool {
    let u = c as u32;
    ||| 0x09 <= u <= 0x0D
    ||| u == 0x20
    ||| u == 0x85
    ||| u == 0xA0
    ||| u == 0x1680
    ||| 0x2000 <= u <= 0x200A
    ||| u == 0x2028
    ||| u == 0x2029
    ||| u == 0x202F
    ||| u == 0x205F
    ||| u == 0x3000
}

/// Whether a character is white space.
pub fn is_whitespace(c: char) -> (white: bool)
    ensures
        white == is_white_space(c),
{
    let u: u32 = c as u32;
    (0x09 <= u && u <= 0x0D) || u == 0x20 || u == 0x85 || u == 0xA0 || u == 0x1680 || (0x2000 <= u
        && u <= 0x200A) || u == 0x2028 || u == 0x2029 || u == 0x202F || u == 0x205F || u == 0x3000
}

/// The uppercase form of a text, as `str::to_uppercase` gives it.
pub uninterp spec fn uppercase(s: Seq<char>) -> Seq<char>;

/// `str::to_uppercase`: the text that `uppercase` names.
#[verifier::external_body]
pub(crate) fn to_uppercase(s: &str) -> (out: String)
    ensures
        out@ == uppercase(s@),
{
    s.to_uppercase()
}

/// The lowercase form of a text, as `str::to_lowercase` gives it.
pub uninterp spec fn lowercase(s: Seq<char>) -> Seq<char>;

/// `str::to_lowercase`: the text that `lowercase` names.
#[verifier::external_body]
pub(crate) fn to_lowercase(s: &str) -> (out: String)
    ensures
        out@ == lowercase(s@),
{
    s.to_lowercase()
}

/// The views of a sequence of strings.
pub open spec fn texts(v: Seq<String>) -> Seq<Seq<char>> {
    Seq::new(v.len(), |i: int| v[i]@)
}

/// The views of a sequence with one more string are the views with one more
/// text.
pub proof fn texts_push(v: Seq<String>, s: String)
    ensures
        texts(v.push(s)) == texts(v).push(s@),
{
    assert(texts(v.push(s)) =~= texts(v).push(s@));
}

/// The characters of a text.
pub fn chars_of(s: &str) -> (out: Vec<char>)
    ensures
        out@ == s@,
{
    let mut out: Vec<char> = Vec::new();
    for c in it: s.chars()
        invariant
            it.seq() == s@,
            out@ == s@.subrange(0, it.index() as int),
    {
        out.push(c);
        assert(out@ =~= s@.subrange(0, it.index() + 1));
    }
    assert(s@.subrange(0, s@.len() as int) =~= s@);
    out
}

/// The text of some characters.
pub fn text_of(chars: &Vec<char>) -> (out: String)
    ensures
        out@ == chars@,
{
    let mut out = String::new();
    let mut i: usize = 0;
    while i < chars.len()
        invariant
            i <= chars.len(),
            out@ == chars@.subrange(0, i as int),
        decreases chars.len() - i,
    {
        out.push(chars[i]);
        i = i + 1;
        assert(out@ =~= chars@.subrange(0, i as int));
    }
    assert(chars@.subrange(0, chars.len() as int) =~= chars@);
    out
}

/// Appends `tail` to `buf`.
pub fn push_all(buf: &mut Vec<char>, tail: &Vec<char>)
    ensures
        final(buf)@ == old(buf)@ + tail@,
{
    let mut i: usize = 0;
    while i < tail.len()
        invariant
            i <= tail.len(),
            buf@ == old(buf)@ + tail@.subrange(0, i as int),
        decreases tail.len() - i,
    {
        buf.push(tail[i]);
        i = i + 1;
        assert(buf@ =~= old(buf)@ + tail@.subrange(0, i as int));
    }
    assert(tail@.subrange(0, tail.len() as int) =~= tail@);
}

/// Appends the characters of `tail` to `buf`.
pub fn push_str(buf: &mut Vec<char>, tail: &str)
    ensures
        final(buf)@ == old(buf)@ + tail@,
{
    let t = chars_of(tail);
    push_all(buf, &t);
}

/// Whether `s` begins with `prefix`.
pub fn has_prefix(s: &Vec<char>, prefix: &Vec<char>) -> (yes: bool)
    ensures
        yes == prefix@.is_prefix_of(s@),
{
    if prefix.len() > s.len() {
        return false;
    }
    let mut i: usize = 0;
    while i < prefix.len()
        invariant
            i <= prefix.len() <= s.len(),
            forall|k: int| 0 <= k < i ==> s@[k] == prefix@[k],
        decreases prefix.len() - i,
    {
        if s[i] != prefix[i] {
            assert(s@.subrange(0, prefix@.len() as int)[i as int] != prefix@[i as int]);
            return false;
        }
        i = i + 1;
    }
    assert(prefix@ =~= s@.subrange(0, prefix@.len() as int));
    true
}

/// Whether `s` ends with `suffix`.
pub fn has_suffix(s: &Vec<char>, suffix: &Vec<char>) -> (yes: bool)
    ensures
        yes == suffix@.is_suffix_of(s@),
{
    if suffix.len() > s.len() {
        return false;
    }
    let off: usize = s.len() - suffix.len();
    let mut i: usize = 0;
    while i < suffix.len()
        invariant
            i <= suffix.len() <= s.len(),
            off == s.len() - suffix.len(),
            forall|k: int| 0 <= k < i ==> s@[off + k] == suffix@[k],
        decreases suffix.len() - i,
    {
        if s[off + i] != suffix[i] {
            assert(s@.subrange(off as int, s@.len() as int)[i as int] != suffix@[i as int]);
            return false;
        }
        i = i + 1;
    }
    assert(suffix@ =~= s@.subrange(off as int, s@.len() as int));
    true
}

/// Whether `c` stands in `s`.
pub fn has_char(s: &Vec<char>, c: char) -> (yes: bool)
    ensures
        yes == s@.contains(c),
{
    let mut i: usize = 0;
    while i < s.len()
        invariant
            i <= s.len(),
            forall|k: int| 0 <= k < i ==> s@[k] != c,
        decreases s.len() - i,
    {
        if s[i] == c {
            return true;
        }
        i = i + 1;
    }
    false
}

/// `needle` stands in `s` at offset `at`.
pub open spec fn occurs_at(s: Seq<char>, needle: Seq<char>, at: int) -> bool {
    &&& 0 <= at
    &&& at + needle.len() <= s.len()
    &&& s.subrange(at, at + needle.len()) == needle
}

/// `needle` stands somewhere in `s`.
pub open spec fn has_sub(s: Seq<char>, needle: Seq<char>) -> bool {
    exists|at: int| occurs_at(s, needle, at)
}

/// A text that stands in a text also stands in it when more follows or
/// goes before.
pub proof fn sub_stays(before: Seq<char>, s: Seq<char>, after: Seq<char>, needle: Seq<char>)
    requires
        has_sub(s, needle),
    ensures
        has_sub(before + s + after, needle),
{
    let at = choose|at: int| occurs_at(s, needle, at);
    let whole = before + s + after;
    assert(whole.subrange(before.len() + at, before.len() + at + needle.len()) =~= needle);
    assert(occurs_at(whole, needle, before.len() + at));
}

/// What stands in each of some texts still stands in it when more follows.
pub proof fn subs_stay(s: Seq<char>, after: Seq<char>, needles: Seq<Seq<char>>)
    requires
        forall|k: int| 0 <= k < needles.len() ==> has_sub(s, #[trigger] needles[k]),
    ensures
        forall|k: int| 0 <= k < needles.len() ==> has_sub(s + after, #[trigger] needles[k]),
{
    assert forall|k: int| 0 <= k < needles.len() implies has_sub(s + after, #[trigger] needles[k]) by {
        sub_stays(Seq::empty(), s, after, needles[k]);
        assert(Seq::<char>::empty() + s + after =~= s + after);
    }
}

/// A text stands in itself.
pub proof fn sub_of_itself(s: Seq<char>)
    ensures
        has_sub(s, s),
{
    assert(s.subrange(0, s.len() as int) =~= s);
    assert(occurs_at(s, s, 0));
}

fn matches_at(s: &Vec<char>, needle: &Vec<char>, at: usize) -> (yes: bool)
    requires
        at + needle.len() <= s.len(),
    ensures
        yes == occurs_at(s@, needle@, at as int),
{
    let mut i: usize = 0;
    while i < needle.len()
        invariant
            i <= needle.len(),
            at + needle.len() <= s.len(),
            forall|k: int| 0 <= k < i ==> s@[at + k] == needle@[k],
        decreases needle.len() - i,
    {
        if s[at + i] != needle[i] {
            assert(s@.subrange(at as int, at + needle@.len())[i as int] != needle@[i as int]);
            return false;
        }
        i = i + 1;
    }
    assert(s@.subrange(at as int, at + needle@.len()) =~= needle@);
    true
}

/// Whether `needle` stands somewhere in `s`.
pub fn contains_sub(s: &Vec<char>, needle: &Vec<char>) -> (yes: bool)
    ensures
        yes == has_sub(s@, needle@),
{
    if needle.len() > s.len() {
        return false;
    }
    let last: usize = s.len() - needle.len();
    let mut at: usize = 0;
    while at < last
        invariant
            at <= last,
            last == s.len() - needle.len(),
            forall|k: int| 0 <= k < at ==> !occurs_at(s@, needle@, k),
        decreases last - at,
    {
        if matches_at(s, needle, at) {
            return true;
        }
        at = at + 1;
    }
    matches_at(s, needle, last)
}

/// How often `c` stands in `s`.
pub open spec fn count_of(s: Seq<char>, c: char) -> nat
    decreases s.len(),
{
    if s.len() == 0 {
        0
    } else {
        count_of(s.drop_last(), c) + if s.last() == c { 1nat } else { 0nat }
    }
}


/// Counts how often `c` stands in `s`.
pub fn count_char(s: &Vec<char>, c: char) -> (n: usize)
    ensures
        n == count_of(s@, c),
{
    let mut n: usize = 0;
    let mut i: usize = 0;
    while i < s.len()
        invariant
            i <= s.len(),
            n <= i,
            n == count_of(s@.subrange(0, i as int), c),
        decreases s.len() - i,
    {
        assert(s@.subrange(0, i + 1).drop_last() =~= s@.subrange(0, i as int));
        if s[i] == c {
            n = n + 1;
        }
        i = i + 1;
    }
    assert(s@.subrange(0, s.len() as int) =~= s@);
    n
}

/// Every character of `s` is white space.
pub open spec fn all_white(s: Seq<char>) -> bool {
    forall|i: int| 0 <= i < s.len() ==> is_white_space(#[trigger] s[i])
}

/// Whether a text holds nothing but white space.
pub fn is_blank(s: &Vec<char>) -> (yes: bool)
    ensures
        yes == all_white(s@),
{
    let mut i: usize = 0;
    while i < s.len()
        invariant
            i <= s.len(),
            forall|k: int| 0 <= k < i ==> is_white_space(#[trigger] s@[k]),
        decreases s.len() - i,
    {
        if !is_whitespace(s[i]) {
            return false;
        }
        i = i + 1;
    }
    true
}

/// The state of a left-to-right scan for words: those that have ended, and
/// the characters of the one that has not.
pub open spec fn scan_words(s: Seq<char>) -> (Seq<Seq<char>>, Seq<char>)
    decreases s.len(),
{
    if s.len() == 0 {
        (Seq::empty(), Seq::empty())
    } else {
        let (done, word) = scan_words(s.drop_last());
        if is_white_space(s.last()) {
            if word.len() > 0 {
                (done.push(word), Seq::empty())
            } else {
                (done, word)
            }
        } else {
            (done, word.push(s.last()))
        }
    }
}

/// The maximal runs of characters that are not white space, in order.
pub open spec fn words(s: Seq<char>) -> Seq<Seq<char>> {
    let (done, word) = scan_words(s);
    if word.len() > 0 {
        done.push(word)
    } else {
        done
    }
}

/// No character of the text is white space.
pub open spec fn has_no_white(s: Seq<char>) -> bool {
    forall|i: int| 0 <= i < s.len() ==> !is_white_space(#[trigger] s[i])
}

/// In a scan for words, no word that has ended is empty, and neither a
/// word that has ended nor the one that has not holds white space.
pub proof fn scanned_words_hold_no_white_space(s: Seq<char>)
    ensures
        has_no_white(scan_words(s).1),
        forall|k: int|
            0 <= k < scan_words(s).0.len() ==> (#[trigger] scan_words(s).0[k]).len() > 0
                && has_no_white(scan_words(s).0[k]),
    decreases s.len(),
{
    if s.len() > 0 {
        scanned_words_hold_no_white_space(s.drop_last());
        let (done, word) = scan_words(s.drop_last());
        let (now_done, now_word) = scan_words(s);
        assert forall|k: int| 0 <= k < now_done.len() implies (#[trigger] now_done[k]).len() > 0
            && has_no_white(now_done[k]) by {
            if k < done.len() {
                assert(now_done[k] == done[k]);
            }
        }
    }
}

/// Every word of a text has a character, and none of its characters is
/// white space.
pub proof fn law_words_hold_no_white_space(s: Seq<char>)
    ensures
        forall|k: int|
            0 <= k < words(s).len() ==> (#[trigger] words(s)[k]).len() > 0 && has_no_white(
                words(s)[k],
            ),
{
    scanned_words_hold_no_white_space(s);
    let (done, word) = scan_words(s);
    assert forall|k: int| 0 <= k < words(s).len() implies (#[trigger] words(s)[k]).len() > 0
        && has_no_white(words(s)[k]) by {
        if k < done.len() {
            assert(words(s)[k] == done[k]);
        }
    }
}

/// A word: a text that is not empty and holds no white space.
pub open spec fn is_word(s: Seq<char>) -> bool {
    s.len() > 0 && has_no_white(s)
}

/// A scan that goes on over characters that are no white space carries
/// them into the word that has not ended.
pub proof fn scan_goes_on_over_a_word(s: Seq<char>, w: Seq<char>)
    requires
        has_no_white(w),
    ensures
        scan_words(s + w) == (scan_words(s).0, scan_words(s).1 + w),
    decreases w.len(),
{
    if w.len() == 0 {
        assert(s + w =~= s);
        assert(scan_words(s).1 + w =~= scan_words(s).1);
    } else {
        let front = w.drop_last();
        assert forall|i: int| 0 <= i < front.len() implies !is_white_space(#[trigger] front[i]) by {
            assert(front[i] == w[i]);
        }
        scan_goes_on_over_a_word(s, front);
        assert((s + w).drop_last() =~= s + front);
        assert((s + w).last() == w[w.len() - 1]);
        assert((scan_words(s).1 + front).push(w.last()) =~= scan_words(s).1 + w);
    }
}

/// The words of words that one space joins are those words.
pub proof fn law_joined_words_are_split_again(parts: Seq<Seq<char>>)
    requires
        forall|k: int| 0 <= k < parts.len() ==> is_word(#[trigger] parts[k]),
    ensures
        words(joined(parts, seq![' '])) == parts,
        parts.len() > 0 ==> scan_words(joined(parts, seq![' '])) == (parts.drop_last(), parts.last()),
    decreases parts.len(),
{
    let space = seq![' '];
    if parts.len() == 0 {
        assert(words(joined(parts, space)) =~= parts);
    } else if parts.len() == 1 {
        assert(is_word(parts[0]));
        scan_goes_on_over_a_word(Seq::empty(), parts[0]);
        assert(Seq::<char>::empty() + parts[0] =~= parts[0]);
        assert(parts.drop_last() =~= Seq::<Seq<char>>::empty());
        assert(words(joined(parts, space)) =~= parts);
    } else {
        let front = parts.drop_last();
        assert forall|k: int| 0 <= k < front.len() implies is_word(#[trigger] front[k]) by {
            assert(front[k] == parts[k]);
        }
        law_joined_words_are_split_again(front);
        let head = joined(front, space);
        let spaced = head + space;
        assert(spaced.drop_last() =~= head);
        assert(spaced.last() == ' ');
        assert(is_white_space(' '));
        assert(is_word(front[front.len() - 1]));
        assert(scan_words(spaced) == (front.drop_last().push(front.last()), Seq::<char>::empty()));
        assert(front.drop_last().push(front.last()) =~= front);
        assert(is_word(parts[parts.len() - 1]));
        scan_goes_on_over_a_word(spaced, parts.last());
        assert(Seq::<char>::empty() + parts.last() =~= parts.last());
        assert(front.push(parts.last()) =~= parts);
    }
}

/// Splits at white space, as `str::split_whitespace` does: no word is empty.
pub fn split_words(s: &str) -> (out: Vec<String>)
    ensures
        texts(out@) == words(s@),
{
    let chars = chars_of(s);
    let mut out: Vec<String> = Vec::new();
    let mut word: Vec<char> = Vec::new();
    let mut i: usize = 0;
    while i < chars.len()
        invariant
            i <= chars.len(),
            chars@ == s@,
            (texts(out@), word@) == scan_words(s@.subrange(0, i as int)),
        decreases chars.len() - i,
    {
        assert(s@.subrange(0, i + 1).drop_last() =~= s@.subrange(0, i as int));
        let c = chars[i];
        let ghost before = texts(out@);
        if is_whitespace(c) {
            if word.len() > 0 {
                let w = text_of(&word);
                out.push(w);
                assert(texts(out@) =~= before.push(word@));
                word = Vec::new();
            }
        } else {
            word.push(c);
        }
        i = i + 1;
    }
    assert(s@.subrange(0, chars.len() as int) =~= s@);
    if word.len() > 0 {
        let ghost before = texts(out@);
        let w = text_of(&word);
        out.push(w);
        assert(texts(out@) =~= before.push(word@));
    }
    out
}

/// The parts in order, with `sep` between each two.
pub open spec fn joined(parts: Seq<Seq<char>>, sep: Seq<char>) -> Seq<char>
    decreases parts.len(),
{
    if parts.len() == 0 {
        Seq::empty()
    } else if parts.len() == 1 {
        parts[0]
    } else {
        joined(parts.drop_last(), sep) + sep + parts.last()
    }
}

/// Joins the parts with `sep` between each two.
pub fn join(parts: &Vec<String>, sep: &str) -> (out: String)
    ensures
        out@ == joined(texts(parts@), sep@),
{
    let mut buf: Vec<char> = Vec::new();
    let mut i: usize = 0;
    while i < parts.len()
        invariant
            i <= parts.len(),
            buf@ == joined(texts(parts@).subrange(0, i as int), sep@),
        decreases parts.len() - i,
    {
        let ghost upto = texts(parts@).subrange(0, i + 1);
        assert(upto.drop_last() =~= texts(parts@).subrange(0, i as int));
        assert(upto.last() == parts@[i as int]@);
        if i > 0 {
            push_str(&mut buf, sep);
        }
        push_str(&mut buf, parts[i].as_str());
        i = i + 1;
    }
    assert(texts(parts@).subrange(0, parts.len() as int) =~= texts(parts@));
    text_of(&buf)
}

/// The digit character of a number below ten.
pub open spec fn digit(d: nat) -> char
    recommends
        d < 10,
{
    if d == 0 {
        '0'
    } else if d == 1 {
        '1'
    } else if d == 2 {
        '2'
    } else if d == 3 {
        '3'
    } else if d == 4 {
        '4'
    } else if d == 5 {
        '5'
    } else if d == 6 {
        '6'
    } else if d == 7 {
        '7'
    } else if d == 8 {
        '8'
    } else {
        '9'
    }
}

/// A number in decimal, without leading zeros.
pub open spec fn decimal(n: nat) -> Seq<char>
    decreases n,
{
    if n < 10 {
        seq![digit(n)]
    } else {
        decimal(n / 10).push(digit(n % 10))
    }
}

fn digit_char(d: u64) -> (c: char)
    requires
        d < 10,
    ensures
        c == digit(d as nat),
{
    if d == 0 {
        '0'
    } else if d == 1 {
        '1'
    } else if d == 2 {
        '2'
    } else if d == 3 {
        '3'
    } else if d == 4 {
        '4'
    } else if d == 5 {
        '5'
    } else if d == 6 {
        '6'
    } else if d == 7 {
        '7'
    } else if d == 8 {
        '8'
    } else {
        '9'
    }
}

/// Appends `n` in decimal to `buf`.
pub fn push_decimal(buf: &mut Vec<char>, n: u64)
    ensures
        final(buf)@ == old(buf)@ + decimal(n as nat),
    decreases n,
{
    if n >= 10 {
        push_decimal(buf, n / 10);
    }
    buf.push(digit_char(n % 10));
    assert(buf@ =~= old(buf)@ + decimal(n as nat));
}

/// `width - len` spaces, none where the text is already that wide.
pub open spec fn padding(len: nat, width: nat) -> Seq<char> {
    Seq::new(
        if len < width {
            (width - len) as nat
        } else {
            0
        },
        |i: int| ' ',
    )
}

/// Appends `s` to `buf` and fills with spaces up to `width` characters.
pub fn push_padded(buf: &mut Vec<char>, s: &Vec<char>, width: usize)
    ensures
        final(buf)@ == old(buf)@ + s@ + padding(s@.len(), width as nat),
{
    push_all(buf, s);
    let mut n: usize = s.len();
    while n < width
        invariant
            s.len() <= n,
            n <= width || n == s.len(),
            buf@ == old(buf)@ + s@ + padding(s@.len(), n as nat),
        decreases width - n,
    {
        buf.push(' ');
        n = n + 1;
        assert(buf@ =~= old(buf)@ + s@ + padding(s@.len(), n as nat));
    }
    assert(padding(s@.len(), n as nat) =~= padding(s@.len(), width as nat));
}

/// Whether `needle` is one of `list`.
pub fn contains_text(list: &Vec<String>, needle: &str) -> (yes: bool)
    ensures
        yes == texts(list@).contains(needle@),
{
    let mut i: usize = 0;
    while i < list.len()
        invariant
            i <= list.len(),
            forall|k: int| 0 <= k < i ==> texts(list@)[k] != needle@,
        decreases list.len() - i,
    {
        if *list[i].as_str() == *needle {
            assert(texts(list@)[i as int] == needle@);
            return true;
        }
        i = i + 1;
    }
    false
}

/// A copy of a list of strings.
pub fn clone_texts(list: &Vec<String>) -> (out: Vec<String>)
    ensures
        out@ == list@,
{
    let mut out: Vec<String> = Vec::new();
    let mut i: usize = 0;
    while i < list.len()
        invariant
            i <= list.len(),
            out@ == list@.subrange(0, i as int),
        decreases list.len() - i,
    {
        out.push(list[i].clone());
        i = i + 1;
        assert(out@ =~= list@.subrange(0, i as int));
    }
    assert(list@.subrange(0, list.len() as int) =~= list@);
    out
}

/// How many characters at the front of a text are white space.
pub open spec fn white_front(s: Seq<char>) -> nat
    decreases s.len(),
{
    if s.len() > 0 && is_white_space(s[0]) {
        1 + white_front(s.drop_first())
    } else {
        0
    }
}

/// How many characters at the back of a text are white space.
pub open spec fn white_back(s: Seq<char>) -> nat
    decreases s.len(),
{
    if s.len() > 0 && is_white_space(s.last()) {
        1 + white_back(s.drop_last())
    } else {
        0
    }
}

/// The white space at the front is no longer than the text.
pub proof fn white_front_bound(s: Seq<char>)
    ensures
        white_front(s) <= s.len(),
    decreases s.len(),
{
    if s.len() > 0 && is_white_space(s[0]) {
        white_front_bound(s.drop_first());
    }
}

/// The white space at the back is no longer than the text.
pub proof fn white_back_bound(s: Seq<char>)
    ensures
        white_back(s) <= s.len(),
    decreases s.len(),
{
    if s.len() > 0 && is_white_space(s.last()) {
        white_back_bound(s.drop_last());
    }
}

/// A text without the white space at its front and at its back.
pub open spec fn trimmed(s: Seq<char>) -> Seq<char> {
    let rest = s.subrange(white_front(s) as int, s.len() as int);
    rest.subrange(0, rest.len() - white_back(rest))
}

/// Takes the white space off both ends of a text, as `str::trim` does.
pub fn trim(s: &str) -> (out: String)
    ensures
        out@ == trimmed(s@),
{
    let chars = chars_of(s);
    let mut from: usize = 0;
    proof {
        white_front_bound(s@);
        assert(s@.subrange(0, s@.len() as int) =~= s@);
    }
    while from < chars.len() && is_whitespace(chars[from])
        invariant
            from <= chars.len(),
            chars@ == s@,
            white_front(s@) == from + white_front(s@.subrange(from as int, s@.len() as int)),
        decreases chars.len() - from,
    {
        assert(s@.subrange(from as int, s@.len() as int).drop_first() =~= s@.subrange(
            from + 1,
            s@.len() as int,
        ));
        from = from + 1;
    }
    let ghost rest = s@.subrange(from as int, s@.len() as int);
    assert(white_front(rest) == 0);
    let mut to: usize = chars.len();
    proof {
        white_back_bound(rest);
        assert(rest.subrange(0, rest.len() as int) =~= rest);
    }
    while to > from && is_whitespace(chars[to - 1])
        invariant
            from <= to <= chars.len(),
            chars@ == s@,
            rest == s@.subrange(from as int, s@.len() as int),
            white_back(rest) == (chars.len() - to) + white_back(rest.subrange(0, to - from)),
        decreases to,
    {
        assert(rest.subrange(0, to - from).drop_last() =~= rest.subrange(0, to - from - 1));
        assert(rest.subrange(0, to - from).last() == chars@[to - 1]);
        to = to - 1;
    }
    assert(white_back(rest.subrange(0, to - from)) == 0) by {
        if to > from {
            assert(rest.subrange(0, to - from).last() == chars@[to - 1]);
        }
    }
    let mut out: Vec<char> = Vec::new();
    let mut i: usize = from;
    while i < to
        invariant
            from <= i <= to <= chars.len(),
            out@ == chars@.subrange(from as int, i as int),
        decreases to - i,
    {
        out.push(chars[i]);
        i = i + 1;
        assert(out@ =~= chars@.subrange(from as int, i as int));
    }
    assert(out@ =~= trimmed(s@));
    text_of(&out)
}

} // verus!
