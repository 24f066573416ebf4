//! Text as a sequence of characters.

use vstd::prelude::*;
use vstd::string::*;

verus! {

/// `String::push` appends the given character to the string.
pub assume_specification[ String::push ](s: &mut String, c: char)
    ensures
        final(s)@ == old(s)@.push(c),
;

/// `String::push_str` appends the given text to the string.
pub assume_specification[ String::push_str ](s: &mut String, other: &str)
    ensures
        final(s)@ == old(s)@ + other@,
;

/// The characters of a text.
pub fn chars_of(text: &str) -> (chars: Vec<char>)
    ensures
        chars@ == text@,
{
    let mut chars: Vec<char> = Vec::new();
    for c in it: text.chars()
        invariant
            chars@ == it.seq().take(it.index() as int),
            it.seq() == text@,
    {
        chars.push(c);
        assert(it.seq().take(it.index() + 1) =~= it.seq().take(it.index() as int).push(c));
    }
    assert(text@.take(text@.len() as int) =~= text@);
    chars
}

/// The text made of the characters from `from` up to `to`.
pub fn text_of(chars: &Vec<char>, from: usize, to: usize) -> (text: String)
    requires
        from <= to <= chars@.len(),
    ensures
        text@ == chars@.subrange(from as int, to as int),
{
    let mut text = String::new();
    for i in from..to
        invariant
            from <= to <= chars@.len(),
            text@ == chars@.subrange(from as int, i as int),
    {
        text.push(chars[i]);
        assert(chars@.subrange(from as int, i + 1) =~= chars@.subrange(from as int, i as int).push(
            chars@[i as int],
        ));
    }
    text
}

/// Whether two texts are the same.
pub fn same_text(a: &str, b: &str) -> (same: bool)
    ensures
        same == (a@ == b@),
{
    let x = a.as_bytes();
    let y = b.as_bytes();
    proof {
        vstd::utf8::encode_utf8_decode_utf8(a@);
        vstd::utf8::encode_utf8_decode_utf8(b@);
    }
    if x.len() != y.len() {
        return false;
    }
    let len = x.len();
    for i in 0..len
        invariant
            len == x@.len() == y@.len(),
            x@ == a.spec_bytes(),
            y@ == b.spec_bytes(),
            forall|j: int| 0 <= j < i ==> x@[j] == y@[j],
    {
        if x[i] != y[i] {
            return false;
        }
    }
    assert(x@ =~= y@);
    true
}

/// Whether a character has the Unicode property `White_Space`.
pub open spec fn white_space(c: char) -> bool {
    ||| '\u{9}' <= c <= '\u{d}'
    ||| c == '\u{20}'
    ||| c == '\u{85}'
    ||| c == '\u{a0}'
    ||| c == '\u{1680}'
    ||| '\u{2000}' <= c <= '\u{200a}'
    ||| c == '\u{2028}'
    ||| c == '\u{2029}'
    ||| c == '\u{202f}'
    ||| c == '\u{205f}'
    ||| c == '\u{3000}'
}

/// Tells whether a character is white space.
pub fn is_white_space(c: char) -> (yes: bool)
    ensures
        yes == white_space(c),
{
    ('\u{9}' <= c && c <= '\u{d}') || c == '\u{20}' || c == '\u{85}' || c == '\u{a0}' || c
        == '\u{1680}' || ('\u{2000}' <= c && c <= '\u{200a}') || c == '\u{2028}' || c == '\u{2029}'
        || c == '\u{202f}' || c == '\u{205f}' || c == '\u{3000}'
}

/// Whether a text is empty or all white space.
pub open spec fn blank(text: Seq<char>) -> bool {
    forall|i: int| 0 <= i < text.len() ==> white_space(#[trigger] text[i])
}

/// Tells whether a text is empty or all white space.
pub fn is_blank(text: &str) -> (yes: bool)
    ensures
        yes == blank(text@),
{
    let chars = chars_of(text);
    for i in 0..chars.len()
        invariant
            chars@ == text@,
            forall|j: int| 0 <= j < i ==> white_space(#[trigger] text@[j]),
    {
        if !is_white_space(chars[i]) {
            assert(!white_space(text@[i as int]));
            return false;
        }
    }
    true
}

/// A text without the white space that it begins with.
pub open spec fn trim_start(text: Seq<char>) -> Seq<char>
    decreases text.len(),
{
    if text.len() > 0 && white_space(text[0]) {
        trim_start(text.skip(1))
    } else {
        text
    }
}

/// White space in front of a text does not change what is left of it.
pub proof fn lemma_trim_blank(blanks: Seq<char>, rest: Seq<char>)
    requires
        blank(blanks),
    ensures
        trim_start(blanks + rest) == trim_start(rest),
    decreases blanks.len(),
{
    if blanks.len() == 0 {
        assert(blanks + rest =~= rest);
    } else {
        assert(white_space(blanks[0]));
        assert((blanks + rest)[0] == blanks[0]);
        assert((blanks + rest).skip(1) =~= blanks.skip(1) + rest);
        assert forall|i: int| 0 <= i < blanks.skip(1).len() implies white_space(
            #[trigger] blanks.skip(1)[i],
        ) by {
            assert(blanks.skip(1)[i] == blanks[i + 1]);
        }
        lemma_trim_blank(blanks.skip(1), rest);
    }
}

/// Removes the white space that a text begins with.
pub fn trimmed_start(chars: &Vec<char>) -> (rest: Vec<char>)
    ensures
        rest@ == trim_start(chars@),
{
    let mut start: usize = 0;
    assert(chars@.skip(0) =~= chars@);
    while start < chars.len() && is_white_space(chars[start])
        invariant
            start <= chars@.len(),
            trim_start(chars@) == trim_start(chars@.skip(start as int)),
        decreases chars@.len() - start,
    {
        assert(chars@.skip(start as int).skip(1) =~= chars@.skip(start + 1));
        start += 1;
    }
    assert(chars@.skip(start as int) =~= chars@.subrange(start as int, chars@.len() as int));
    slice_of(chars, start, chars.len())
}

/// The characters from `from` up to `to`.
pub fn slice_of(chars: &Vec<char>, from: usize, to: usize) -> (part: Vec<char>)
    requires
        from <= to <= chars@.len(),
    ensures
        part@ == chars@.subrange(from as int, to as int),
{
    let mut part: Vec<char> = Vec::new();
    for i in from..to
        invariant
            from <= to <= chars@.len(),
            part@ == chars@.subrange(from as int, i as int),
    {
        part.push(chars[i]);
        assert(chars@.subrange(from as int, i + 1) =~= chars@.subrange(from as int, i as int).push(
            chars@[i as int],
        ));
    }
    part
}

/// Tells whether `prefix` stands in `chars` at position `at`.
pub fn stands_at(chars: &Vec<char>, at: usize, prefix: &Vec<char>) -> (yes: bool)
    requires
        at <= chars@.len(),
    ensures
        yes == prefix@.is_prefix_of(chars@.skip(at as int)),
{
    let len = chars.len();
    if prefix.len() > len - at {
        return false;
    }
    for i in 0..prefix.len()
        invariant
            at + prefix@.len() <= chars@.len() == len,
            forall|j: int| 0 <= j < i ==> prefix@[j] == chars@.skip(at as int)[j],
    {
        if prefix[i] != chars[at + i] {
            assert(prefix@[i as int] != chars@.skip(at as int)[i as int]);
            assert(prefix@.is_prefix_of(chars@.skip(at as int)) ==> chars@.skip(at as int).subrange(
                0,
                prefix@.len() as int,
            )[i as int] == prefix@[i as int]);
            return false;
        }
    }
    assert(prefix@ =~= chars@.skip(at as int).subrange(0, prefix@.len() as int));
    true
}

/// Tells whether a text begins with another.
pub fn begins_with(text: &str, prefix: &str) -> (yes: bool)
    ensures
        yes == prefix@.is_prefix_of(text@),
{
    let chars = chars_of(text);
    assert(chars@.skip(0) =~= text@);
    stands_at(&chars, 0, &chars_of(prefix))
}

/// The first position at which `pattern` stands in a text.
pub open spec fn find(text: Seq<char>, pattern: Seq<char>) -> Option<int>
    decreases text.len(),
{
    if pattern.is_prefix_of(text) {
        Some(0)
    } else if text.len() == 0 {
        None
    } else {
        match find(text.skip(1), pattern) {
            Some(k) => Some(k + 1),
            None => None,
        }
    }
}

/// Where a pattern stands and where it stands nowhere before, there it is found.
pub proof fn lemma_found_at(text: Seq<char>, pattern: Seq<char>, k: int)
    requires
        0 <= k <= text.len(),
        pattern.is_prefix_of(text.skip(k)),
        forall|j: int| 0 <= j < k ==> !#[trigger] pattern.is_prefix_of(text.skip(j)),
    ensures
        find(text, pattern) == Some(k),
    decreases k,
{
    assert(text.skip(0) =~= text);
    if k > 0 {
        assert(!pattern.is_prefix_of(text.skip(0)));
        let rest = text.skip(1);
        assert(rest.skip(k - 1) =~= text.skip(k));
        assert forall|j: int| 0 <= j < k - 1 implies !#[trigger] pattern.is_prefix_of(
            rest.skip(j),
        ) by {
            assert(rest.skip(j) =~= text.skip(j + 1));
        }
        lemma_found_at(rest, pattern, k - 1);
    }
}

/// A pattern that stands nowhere is not found.
pub proof fn lemma_not_found(text: Seq<char>, pattern: Seq<char>)
    requires
        forall|j: int| 0 <= j <= text.len() ==> !#[trigger] pattern.is_prefix_of(text.skip(j)),
    ensures
        find(text, pattern) is None,
    decreases text.len(),
{
    assert(text.skip(0) =~= text);
    assert(!pattern.is_prefix_of(text.skip(0)));
    if text.len() > 0 {
        let rest = text.skip(1);
        assert forall|j: int| 0 <= j <= rest.len() implies !#[trigger] pattern.is_prefix_of(
            rest.skip(j),
        ) by {
            assert(rest.skip(j) =~= text.skip(j + 1));
        }
        lemma_not_found(rest, pattern);
    }
}

/// Where a pattern is found, there is room for it.
pub proof fn lemma_find_bounds(text: Seq<char>, pattern: Seq<char>)
    ensures
        find(text, pattern) matches Some(k) ==> 0 <= k && k + pattern.len() <= text.len(),
    decreases text.len(),
{
    if !pattern.is_prefix_of(text) && text.len() > 0 {
        lemma_find_bounds(text.skip(1), pattern);
    }
}

/// A pattern that stands somewhere is found.
pub proof fn lemma_find_some(text: Seq<char>, pattern: Seq<char>, at: int)
    requires
        0 <= at <= text.len(),
        pattern.is_prefix_of(text.skip(at)),
    ensures
        find(text, pattern) is Some,
    decreases text.len(),
{
    if at == 0 {
        assert(text.skip(0) =~= text);
    } else if !pattern.is_prefix_of(text) {
        assert(text.skip(1).skip(at - 1) =~= text.skip(at));
        lemma_find_some(text.skip(1), pattern, at - 1);
    }
}

/// Where a pattern is found, there it is found too where more text comes behind.
pub proof fn lemma_find_before_more(text: Seq<char>, more: Seq<char>, pattern: Seq<char>)
    requires
        find(text, pattern) is Some,
    ensures
        find(text + more, pattern) == find(text, pattern),
    decreases text.len(),
{
    let whole = text + more;
    let n = pattern.len() as int;
    lemma_find_bounds(text, pattern);
    assert(whole.subrange(0, n) =~= text.subrange(0, n));
    if !pattern.is_prefix_of(text) {
        assert(whole.skip(1) =~= text.skip(1) + more);
        lemma_find_before_more(text.skip(1), more, pattern);
    }
}

/// Finds the first position at or after `from` at which `pattern` stands.
pub fn find_from(chars: &Vec<char>, from: usize, pattern: &Vec<char>) -> (at: Option<usize>)
    requires
        from <= chars@.len(),
    ensures
        match at {
            Some(k) => from <= k && k + pattern@.len() <= chars@.len() && find(
                chars@.skip(from as int),
                pattern@,
            ) == Some(k - from),
            None => find(chars@.skip(from as int), pattern@) is None,
        },
{
    let mut i: usize = from;
    loop
        invariant
            from <= i <= chars@.len(),
            find(chars@.skip(from as int), pattern@) == (match find(chars@.skip(i as int), pattern@) {
                Some(k) => Some(k + (i - from)),
                None => None,
            }),
        decreases chars@.len() - i,
    {
        if stands_at(chars, i, pattern) {
            return Some(i);
        }
        if i == chars.len() {
            return None;
        }
        assert(chars@.skip(i as int).skip(1) =~= chars@.skip(i + 1));
        i += 1;
    }
}

/// The parts of a text between the places where `pattern` stands.
pub open spec fn split(text: Seq<char>, pattern: Seq<char>) -> Seq<Seq<char>>
    decreases text.len(),
{
    match find(text, pattern) {
        Some(k) => if pattern.len() > 0 && 0 <= k <= text.len() - pattern.len() {
            seq![text.take(k)] + split(text.skip(k + pattern.len()), pattern)
        } else {
            seq![text]
        },
        None => seq![text],
    }
}

/// The parts, each as the sequence of its characters.
pub open spec fn parts_view(parts: Seq<Vec<char>>) -> Seq<Seq<char>> {
    parts.map_values(|part: Vec<char>| part@)
}

/// Splits a text at every place where `pattern` stands.
pub fn split_at_pattern(chars: &Vec<char>, pattern: &Vec<char>) -> (parts: Vec<Vec<char>>)
    requires
        pattern@.len() > 0,
    ensures
        parts_view(parts@) == split(chars@, pattern@),
{
    let mut parts: Vec<Vec<char>> = Vec::new();
    let mut start: usize = 0;
    let len = chars.len();
    assert(chars@.skip(0) =~= chars@);
    assert(parts_view(parts@) + split(chars@, pattern@) =~= split(chars@, pattern@));
    loop
        invariant
            start <= chars@.len() == len,
            pattern@.len() > 0,
            parts_view(parts@) + split(chars@.skip(start as int), pattern@) == split(
                chars@,
                pattern@,
            ),
        decreases chars@.len() - start,
    {
        let ghost before = parts_view(parts@);
        let ghost from = start as int;
        let ghost rest = chars@.skip(from);
        match find_from(chars, start, pattern) {
            Some(k) => {
                parts.push(slice_of(chars, start, k));
                assert(chars@.subrange(from, k as int) =~= rest.take(k - from));
                assert(parts_view(parts@) =~= before.push(rest.take(k - from)));
                start = k + pattern.len();
                assert(rest.skip(k - from + pattern@.len()) =~= chars@.skip(start as int));
                assert(parts_view(parts@) + split(chars@.skip(start as int), pattern@) =~= before
                    + split(rest, pattern@));
            },
            None => {
                parts.push(slice_of(chars, start, len));
                assert(chars@.subrange(from, len as int) =~= rest);
                assert(parts_view(parts@) =~= before + seq![rest]);
                return parts;
            },
        }
    }
}

/// The items that a choice keeps, each in the form that the choice gives it.
pub open spec fn kept<A, B>(items: Seq<A>, choice: spec_fn(A) -> Option<B>) -> Seq<B>
    decreases items.len(),
{
    if items.len() == 0 {
        Seq::empty()
    } else {
        let before = kept(items.drop_last(), choice);
        match choice(items.last()) {
            Some(item) => before.push(item),
            None => before,
        }
    }
}

/// What is kept of a beginning and one item more.
pub proof fn lemma_kept_one_more<A, B>(items: Seq<A>, choice: spec_fn(A) -> Option<B>, n: int)
    requires
        0 <= n < items.len(),
    ensures
        kept(items.take(n + 1), choice) == (match choice(items[n]) {
            Some(item) => kept(items.take(n), choice).push(item),
            None => kept(items.take(n), choice),
        }),
{
    assert(items.take(n + 1).drop_last() =~= items.take(n));
}

/// What is kept of one item and more items after it.
pub proof fn lemma_kept_first<A, B>(first: A, rest: Seq<A>, choice: spec_fn(A) -> Option<B>)
    ensures
        kept(seq![first] + rest, choice) == (match choice(first) {
            Some(item) => seq![item] + kept(rest, choice),
            None => kept(rest, choice),
        }),
    decreases rest.len(),
{
    let all = seq![first] + rest;
    if rest.len() == 0 {
        assert(all.drop_last() =~= Seq::empty());
        assert(kept(all.drop_last(), choice) =~= Seq::empty());
        assert(kept(all, choice) =~= (match choice(first) {
            Some(item) => seq![item] + kept(rest, choice),
            None => kept(rest, choice),
        }));
    } else {
        lemma_kept_first(first, rest.drop_last(), choice);
        assert(all.drop_last() =~= seq![first] + rest.drop_last());
        assert(all.last() == rest.last());
        assert(kept(all, choice) =~= (match choice(first) {
            Some(item) => seq![item] + kept(rest, choice),
            None => kept(rest, choice),
        }));
    }
}

/// What a choice keeps is what it makes of some item.
pub proof fn lemma_kept_from<A, B>(items: Seq<A>, choice: spec_fn(A) -> Option<B>, i: int) -> (at:
    int)
    requires
        0 <= i < kept(items, choice).len(),
    ensures
        0 <= at < items.len(),
        choice(items[at]) == Some(kept(items, choice)[i]),
    decreases items.len(),
{
    let before = kept(items.drop_last(), choice);
    if i < before.len() {
        lemma_kept_from(items.drop_last(), choice, i)
    } else {
        items.len() - 1
    }
}

/// What a choice makes of an item is kept.
pub proof fn lemma_kept_contains<A, B>(items: Seq<A>, choice: spec_fn(A) -> Option<B>, at: int)
    requires
        0 <= at < items.len(),
        choice(items[at]) is Some,
    ensures
        kept(items, choice).contains(choice(items[at])->Some_0),
    decreases items.len(),
{
    let before = kept(items.drop_last(), choice);
    let all = kept(items, choice);
    let made = choice(items[at])->Some_0;
    if at < items.len() - 1 {
        lemma_kept_contains(items.drop_last(), choice, at);
        let i = choose|i: int| 0 <= i < before.len() && before[i] == made;
        assert(all[i] == made);
    } else {
        assert(all.last() == made);
    }
}

/// What is kept of items and one item more.
pub proof fn lemma_kept_push<A, B>(items: Seq<A>, item: A, choice: spec_fn(A) -> Option<B>)
    ensures
        kept(items.push(item), choice) == (match choice(item) {
            Some(made) => kept(items, choice).push(made),
            None => kept(items, choice),
        }),
{
    assert(items.push(item).drop_last() =~= items);
}

/// The texts, each as the sequence of its characters.
pub open spec fn texts_view(texts: Seq<String>) -> Seq<Seq<char>> {
    texts.map_values(|one: String| one@)
}

/// Texts put one after the other, with a separator in between.
pub open spec fn joined(texts: Seq<Seq<char>>, separator: Seq<char>) -> Seq<char>
    decreases texts.len(),
{
    if texts.len() == 0 {
        Seq::empty()
    } else if texts.len() == 1 {
        texts[0]
    } else {
        joined(texts.drop_last(), separator) + separator + texts.last()
    }
}

/// Joins texts with a separator.
pub fn join(texts: &Vec<String>, separator: &str) -> (whole: String)
    ensures
        whole@ == joined(texts_view(texts@), separator@),
{
    let mut whole = String::new();
    for i in 0..texts.len()
        invariant
            whole@ == joined(texts_view(texts@).take(i as int), separator@),
    {
        let ghost all = texts_view(texts@);
        if i > 0 {
            whole.push_str(separator);
        }
        whole.push_str(texts[i].as_str());
        assert(all.take(i + 1).drop_last() =~= all.take(i as int));
        assert(i == 0 ==> whole@ =~= all[0]);
    }
    assert(texts_view(texts@).take(texts@.len() as int) =~= texts_view(texts@));
    whole
}

/// A character in lower case, where it is an ASCII letter.
pub open spec fn lower_char(c: char) -> char {
    if 'A' <= c <= 'Z' {
        (c as u32 + 32) as char
    } else {
        c
    }
}

/// A text with its ASCII letters in lower case.
pub open spec fn lower_case(given: Seq<char>) -> Seq<char> {
    given.map_values(|c: char| lower_char(c))
}

/// Puts the ASCII letters of a text in lower case.
pub fn to_lower_case(given: &str) -> (lower: String)
    ensures
        lower@ == lower_case(given@),
{
    let chars = chars_of(given);
    let mut lower = String::new();
    for i in 0..chars.len()
        invariant
            chars@ == given@,
            lower@ == lower_case(given@.take(i as int)),
    {
        let c = chars[i];
        let low: char = if 'A' <= c && c <= 'Z' {
            (c as u8 + 32) as char
        } else {
            c
        };
        lower.push(low);
        assert(lower@ =~= lower_case(given@.take(i + 1)));
    }
    assert(given@.take(chars@.len() as int) =~= given@);
    lower
}

/// A decimal digit.
pub open spec fn digit(d: int) -> char {
    if d == 0 {
        '0'
    } else if d == 1 {
        '1'
    } else if d == 2 {
        '2'
    } else if d == 3 {
        '3'
    } else if d == 4 {
        '4'
    } else if d == 5 {
        '5'
    } else if d == 6 {
        '6'
    } else if d == 7 {
        '7'
    } else if d == 8 {
        '8'
    } else {
        '9'
    }
}

/// A number written in decimal digits, without leading zeros.
pub open spec fn decimal(n: nat) -> Seq<char>
    decreases n,
{
    if n < 10 {
        seq![digit(n as int)]
    } else {
        decimal(n / 10).push(digit((n % 10) as int))
    }
}

/// Writes a number in decimal digits.
pub fn decimal_text(n: u128) -> (written: String)
    ensures
        written@ == decimal(n as nat),
    decreases n,
{
    let mut written = if n < 10 {
        String::new()
    } else {
        decimal_text(n / 10)
    };
    let last: u128 = n % 10;
    written.push(
        match last {
            0 => '0',
            1 => '1',
            2 => '2',
            3 => '3',
            4 => '4',
            5 => '5',
            6 => '6',
            7 => '7',
            8 => '8',
            _ => '9',
        },
    );
    assert(n < 10 ==> written@ =~= decimal(n as nat));
    written
}

/// The digits of a number are digits, and there is at least one.
pub proof fn lemma_decimal_digits(n: nat)
    ensures
        decimal(n).len() > 0,
        forall|i: int| 0 <= i < decimal(n).len() ==> '0' <= #[trigger] decimal(n)[i] <= '9',
    decreases n,
{
    if n >= 10 {
        lemma_decimal_digits(n / 10);
    }
}

/// No two numbers are written alike.
pub proof fn lemma_decimal_injective(m: nat, n: nat)
    requires
        decimal(m) == decimal(n),
    ensures
        m == n,
    decreases m,
{
    lemma_decimal_digits(m / 10);
    lemma_decimal_digits(n / 10);
    assert(decimal(m).last() == digit((m % 10) as int));
    assert(decimal(n).last() == digit((n % 10) as int));
    if m >= 10 && n >= 10 {
        assert(decimal(m).drop_last() =~= decimal(m / 10));
        assert(decimal(n).drop_last() =~= decimal(n / 10));
        lemma_decimal_injective(m / 10, n / 10);
    }
}

// ---------------------------------------------------------------------------------------------
// Laws
// ---------------------------------------------------------------------------------------------

/// What is left of a text without the white space in front begins with something else or is empty,
/// and what is taken away is white space.
pub proof fn law_only_white_space_is_trimmed(given: Seq<char>)
    ensures
        ({
            let left = trim_start(given);
            let n = given.len() - left.len();
            &&& n >= 0
            &&& given.skip(n) == left
            &&& blank(given.take(n))
            &&& left.len() > 0 ==> !white_space(left[0])
        }),
    decreases given.len(),
{
    let left = trim_start(given);
    let n = given.len() - left.len();
    if given.len() > 0 && white_space(given[0]) {
        law_only_white_space_is_trimmed(given.skip(1));
        assert(given.skip(1).skip(n - 1) =~= given.skip(n));
        assert forall|i: int| 0 <= i < given.take(n).len() implies white_space(
            #[trigger] given.take(n)[i],
        ) by {
            if i > 0 {
                assert(given.skip(1).take(n - 1)[i - 1] == given[i]);
            }
        }
    } else {
        assert(given.skip(0) =~= given);
    }
}

/// One text joined is itself, and one more text comes behind the separator.
pub proof fn law_joined_one_by_one(texts: Seq<Seq<char>>, one: Seq<char>, separator: Seq<char>)
    ensures
        joined(Seq::empty(), separator).len() == 0,
        joined(seq![one], separator) == one,
        texts.len() > 0 ==> joined(texts.push(one), separator) == joined(texts, separator)
            + separator + one,
{
    assert(texts.push(one).drop_last() =~= texts);
}

/// Parts joined with the pattern they were split at are the text again, and no part holds the
/// pattern.
pub proof fn law_split_parts_join_again(given: Seq<char>, pattern: Seq<char>)
    requires
        pattern.len() > 0,
    ensures
        split(given, pattern).len() > 0,
        joined(split(given, pattern), pattern) == given,
        forall|i: int| 0 <= i < split(given, pattern).len() ==> find(
            #[trigger] split(given, pattern)[i],
            pattern,
        ) is None,
    decreases given.len(),
{
    lemma_find_bounds(given, pattern);
    match find(given, pattern) {
        Some(k) => {
            let rest = given.skip(k + pattern.len());
            law_split_parts_join_again(rest, pattern);
            let parts = split(rest, pattern);
            let all = split(given, pattern);
            assert(all == seq![given.take(k)] + parts);
            lemma_joined_first(given.take(k), parts, pattern);
            lemma_found_stands(given, pattern);
            assert(given =~= given.take(k) + pattern + rest);
            lemma_not_before_found(given, pattern, k);
            assert forall|i: int| 0 <= i < all.len() implies find(#[trigger] all[i], pattern)
                is None by {
                if i > 0 {
                    assert(all[i] == parts[i - 1]);
                }
            }
        },
        None => {},
    }
}

/// Where a pattern is found, there it stands.
proof fn lemma_found_stands(given: Seq<char>, pattern: Seq<char>)
    ensures
        find(given, pattern) matches Some(k) ==> 0 <= k && k + pattern.len() <= given.len()
            && given.subrange(k, k + pattern.len()) == pattern,
    decreases given.len(),
{
    lemma_find_bounds(given, pattern);
    if !pattern.is_prefix_of(given) && given.len() > 0 {
        lemma_found_stands(given.skip(1), pattern);
        if let Some(k) = find(given.skip(1), pattern) {
            assert(given.skip(1).subrange(k, k + pattern.len()) =~= given.subrange(
                k + 1,
                k + 1 + pattern.len(),
            ));
        }
    }
}

/// Before the place where a pattern is found, it is not found.
proof fn lemma_not_before_found(given: Seq<char>, pattern: Seq<char>, k: int)
    requires
        pattern.len() > 0,
        find(given, pattern) == Some(k),
    ensures
        find(given.take(k), pattern) is None,
{
    lemma_find_bounds(given, pattern);
    if find(given.take(k), pattern) is Some {
        lemma_find_bounds(given.take(k), pattern);
        lemma_find_before_more(given.take(k), given.skip(k), pattern);
        assert(given.take(k) + given.skip(k) =~= given);
    }
}

/// One text joined in front of others.
pub proof fn lemma_joined_first(first: Seq<char>, rest: Seq<Seq<char>>, separator: Seq<char>)
    requires
        rest.len() > 0,
    ensures
        joined(seq![first] + rest, separator) == first + separator + joined(rest, separator),
    decreases rest.len(),
{
    let all = seq![first] + rest;
    if rest.len() == 1 {
        assert(all.drop_last() =~= seq![first]);
        assert(joined(seq![first], separator) == first);
        assert(joined(all, separator) =~= first + separator + joined(rest, separator));
    } else {
        lemma_joined_first(first, rest.drop_last(), separator);
        assert(all.drop_last() =~= seq![first] + rest.drop_last());
        assert(joined(all, separator) =~= first + separator + joined(rest, separator));
    }
}

/// The number that decimal digits stand for.
pub open spec fn decimal_value(digits: Seq<char>) -> int
    decreases digits.len(),
{
    if digits.len() == 0 {
        0
    } else {
        10 * decimal_value(digits.drop_last()) + (digits.last() as int - '0' as int)
    }
}

/// The digits that are written for a number stand for it, are digits, and do not begin with a zero
/// unless the number is zero.
pub proof fn law_decimal_digits_stand_for_the_number(n: nat)
    ensures
        decimal_value(decimal(n)) == n,
        decimal(n).len() > 0,
        forall|i: int| 0 <= i < decimal(n).len() ==> '0' <= #[trigger] decimal(n)[i] <= '9',
        n > 0 ==> decimal(n)[0] != '0',
    decreases n,
{
    lemma_decimal_digits(n);
    if n < 10 {
        assert(decimal(n).drop_last() =~= Seq::empty());
        assert(decimal_value(decimal(n).drop_last()) == 0);
    } else {
        law_decimal_digits_stand_for_the_number(n / 10);
        assert(decimal(n).drop_last() =~= decimal(n / 10));
        lemma_decimal_digits(n / 10);
    }
}

/// Lower case changes the capital ASCII letters and nothing else.
pub proof fn law_lower_case_changes_capitals_only(given: Seq<char>, i: int)
    requires
        0 <= i < given.len(),
    ensures
        lower_case(given).len() == given.len(),
        !('A' <= given[i] <= 'Z') ==> lower_case(given)[i] == given[i],
        'A' <= given[i] <= 'Z' ==> lower_case(given)[i] as int - 'a' as int == given[i] as int
            - 'A' as int,
{
}

/// A text is blank exactly where nothing is left of it without the white space in front.
pub proof fn law_blank_texts_are_trimmed_away(given: Seq<char>)
    ensures
        blank(given) <==> trim_start(given).len() == 0,
{
    law_only_white_space_is_trimmed(given);
    let left = trim_start(given);
    if left.len() == 0 {
        assert(given.take(given.len() as int) =~= given);
    } else {
        let n = given.len() - left.len();
        assert(given[n] == left[0]);
    }
}

} // verus!
