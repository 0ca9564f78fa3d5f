//! Text as a sequence of characters: trimming, searching and joining.
use vstd::prelude::*;
use vstd::slice::slice_subrange;

verus! {

/// The characters with Unicode's `White_Space` property.
pub open spec fn is_white_space(c: char) -> bool {
    let p = c as u32;
    ||| 0x9 <= p <= 0xd
    ||| p == 0x20
    ||| p == 0x85
    ||| p == 0xa0
    ||| p == 0x1680
    ||| 0x2000 <= p <= 0x200a
    ||| p == 0x2028
    ||| p == 0x2029
    ||| p == 0x202f
    ||| p == 0x205f
    ||| p == 0x3000
}

/// True for the characters with Unicode's `White_Space` property.
pub fn white_space(c: char) -> (result: bool)
    ensures
        result == is_white_space(c),
{
    let p: u32 = c as u32;
    (0x9 <= p && p <= 0xd) || p == 0x20 || p == 0x85 || p == 0xa0 || p == 0x1680 || (0x2000 <= p
        && p <= 0x200a) || p == 0x2028 || p == 0x2029 || p == 0x202f || p == 0x205f || p == 0x3000
}

/// `s` without the white space it starts with.
pub open spec fn trimmed_start(s: Seq<char>) -> Seq<char>
    decreases s.len(),
{
    if s.len() > 0 && is_white_space(s[0]) {
        trimmed_start(s.skip(1))
    } else {
        s
    }
}

/// `s` without the white space it ends with.
pub open spec fn trimmed_end(s: Seq<char>) -> Seq<char>
    decreases s.len(),
{
    if s.len() > 0 && is_white_space(s.last()) {
        trimmed_end(s.drop_last())
    } else {
        s
    }
}

/// `s` without the white space at either end.
pub open spec fn trimmed(s: Seq<char>) -> Seq<char> {
    trimmed_end(trimmed_start(s))
}

/// Trimming never makes text longer.
pub proof fn lemma_trimmed_start_len(s: Seq<char>)
    ensures
        trimmed_start(s).len() <= s.len(),
    decreases s.len(),
{
    if s.len() > 0 && is_white_space(s[0]) {
        lemma_trimmed_start_len(s.skip(1));
    }
}

/// `text` without the white space it starts with.
pub fn trim_start(text: &[char]) -> (rest: &[char])
    ensures
        rest@ == trimmed_start(text@),
{
    let mut i: usize = 0;
    assert(text@.skip(0) =~= text@);
    while i < text.len() && white_space(text[i])
        invariant
            i <= text@.len(),
            trimmed_start(text@) == trimmed_start(text@.skip(i as int)),
        decreases text@.len() - i,
    {
        assert(text@.skip(i as int).skip(1) =~= text@.skip(i + 1));
        i = i + 1;
    }
    let rest = slice_subrange(text, i, text.len());
    assert(rest@ =~= text@.skip(i as int));
    rest
}

/// `text` without the white space it ends with.
pub fn trim_end(text: &[char]) -> (rest: &[char])
    ensures
        rest@ == trimmed_end(text@),
{
    let mut end: usize = text.len();
    assert(text@.take(end as int) =~= text@);
    while end > 0 && white_space(text[end - 1])
        invariant
            end <= text@.len(),
            trimmed_end(text@) == trimmed_end(text@.take(end as int)),
        decreases end,
    {
        assert(text@.take(end as int).drop_last() =~= text@.take(end - 1));
        end = end - 1;
    }
    let rest = slice_subrange(text, 0, end);
    assert(rest@ =~= text@.take(end as int));
    rest
}

/// `text` without the white space at either end.
pub fn trim(text: &[char]) -> (rest: &[char])
    ensures
        rest@ == trimmed(text@),
{
    trim_end(trim_start(text))
}

/// An index that was found, as a mathematical integer.
pub open spec fn found(index: Option<usize>) -> Option<int> {
    match index {
        Some(i) => Some(i as int),
        None => None,
    }
}

/// The first index of `c` in `s`, from `from` on.
pub open spec fn first_char(s: Seq<char>, c: char, from: int) -> Option<int>
    decreases s.len() - from,
{
    if from < 0 || from >= s.len() {
        None
    } else if s[from] == c {
        Some(from)
    } else {
        first_char(s, c, from + 1)
    }
}

/// The first index of a character is the least one at which it stands.
pub proof fn lemma_first_char(s: Seq<char>, c: char, from: int)
    requires
        0 <= from,
    ensures
        match first_char(s, c, from) {
            Some(i) => from <= i < s.len() && s[i] == c && forall|j: int| from <= j < i ==> s[j] != c,
            None => forall|j: int| from <= j < s.len() ==> s[j] != c,
        },
    decreases s.len() - from,
{
    if from < s.len() && s[from] != c {
        lemma_first_char(s, c, from + 1);
    }
}

/// Finds the first `c` in `text`, from `from` on.
pub fn find_char(text: &[char], c: char, from: usize) -> (index: Option<usize>)
    ensures
        found(index) == first_char(text@, c, from as int),
{
    let mut i: usize = from;
    while i < text.len()
        invariant
            first_char(text@, c, from as int) == first_char(text@, c, i as int),
        decreases text@.len() - i,
    {
        if text[i] == c {
            return Some(i);
        }
        i = i + 1;
    }
    None
}

/// `s` up to the first `c`, or all of it where there is none.
pub open spec fn before(s: Seq<char>, c: char) -> Seq<char> {
    match first_char(s, c, 0) {
        Some(i) => s.take(i),
        None => s,
    }
}

/// `needle` stands in `s` at index `i`.
pub open spec fn occurs_at(s: Seq<char>, needle: Seq<char>, i: int) -> bool {
    &&& 0 <= i
    &&& i + needle.len() <= s.len()
    &&& s.subrange(i, i + needle.len()) == needle
}

/// `needle` stands somewhere in `s`.
pub open spec fn occurs_in(s: Seq<char>, needle: Seq<char>) -> bool {
    exists|i: int| occurs_at(s, needle, i)
}

/// The last index, up to `to`, at which `needle` stands in `s`.
pub open spec fn last_occurrence(s: Seq<char>, needle: Seq<char>, to: int) -> Option<int>
    decreases to + 1,
{
    if to < 0 {
        None
    } else if occurs_at(s, needle, to) {
        Some(to)
    } else {
        last_occurrence(s, needle, to - 1)
    }
}

/// The last occurrence is the greatest index, up to `to`, at which `needle` stands.
pub proof fn lemma_last_occurrence(s: Seq<char>, needle: Seq<char>, to: int)
    ensures
        match last_occurrence(s, needle, to) {
            Some(i) => i <= to && occurs_at(s, needle, i) && forall|j: int|
                i < j <= to ==> !occurs_at(s, needle, j),
            None => forall|j: int| j <= to ==> !occurs_at(s, needle, j),
        },
    decreases to + 1,
{
    if to >= 0 && !occurs_at(s, needle, to) {
        lemma_last_occurrence(s, needle, to - 1);
    }
}

/// True if `needle` stands in `text` at index `at`.
pub fn stands_at(text: &[char], needle: &[char], at: usize) -> (result: bool)
    ensures
        result == occurs_at(text@, needle@, at as int),
{
    if at > text.len() || needle.len() > text.len() - at {
        return false;
    }
    let mut k: usize = 0;
    while k < needle.len()
        invariant
            k <= needle@.len(),
            at + needle@.len() <= text.len(),
            forall|j: int| 0 <= j < k ==> text@[at + j] == needle@[j],
        decreases needle@.len() - k,
    {
        if text[at + k] != needle[k] {
            assert(text@.subrange(at as int, at + needle@.len())[k as int] == text@[at + k]);
            return false;
        }
        k = k + 1;
    }
    assert(text@.subrange(at as int, at + needle@.len()) =~= needle@);
    true
}

/// The first index, from `from` on, at which `needle` stands in `s`.
pub open spec fn first_occurrence(s: Seq<char>, needle: Seq<char>, from: int) -> Option<int>
    decreases s.len() + 1 - from,
{
    if from < 0 || from > s.len() {
        None
    } else if occurs_at(s, needle, from) {
        Some(from)
    } else {
        first_occurrence(s, needle, from + 1)
    }
}

/// The first occurrence is the least index, from `from` on, at which `needle` stands.
pub proof fn lemma_first_occurrence(s: Seq<char>, needle: Seq<char>, from: int)
    requires
        0 <= from,
    ensures
        match first_occurrence(s, needle, from) {
            Some(i) => from <= i && occurs_at(s, needle, i) && forall|j: int|
                from <= j < i ==> !occurs_at(s, needle, j),
            None => forall|j: int| from <= j ==> !occurs_at(s, needle, j),
        },
    decreases s.len() + 1 - from,
{
    if from <= s.len() && !occurs_at(s, needle, from) {
        lemma_first_occurrence(s, needle, from + 1);
    }
}

/// Finds the first place where `needle` stands in `text`.
pub fn find(text: &[char], needle: &[char]) -> (index: Option<usize>)
    ensures
        found(index) == first_occurrence(text@, needle@, 0),
{
    let mut i: usize = 0;
    loop
        invariant
            i <= text@.len(),
            first_occurrence(text@, needle@, 0) == first_occurrence(text@, needle@, i as int),
        decreases text@.len() - i,
    {
        if stands_at(text, needle, i) {
            return Some(i);
        }
        if i == text.len() {
            assert(first_occurrence(text@, needle@, i + 1) is None);
            return None;
        }
        i = i + 1;
    }
}

/// True if `needle` stands somewhere in `text`.
pub fn contains(text: &[char], needle: &[char]) -> (result: bool)
    ensures
        result == occurs_in(text@, needle@),
{
    proof {
        lemma_first_occurrence(text@, needle@, 0);
    }
    find(text, needle).is_some()
}

/// Finds the last place where `needle` stands in `text`.
pub fn rfind(text: &[char], needle: &[char]) -> (index: Option<usize>)
    ensures
        found(index) == last_occurrence(text@, needle@, text@.len() as int),
{
    let mut i: usize = text.len();
    loop
        invariant
            last_occurrence(text@, needle@, text@.len() as int) == last_occurrence(
                text@,
                needle@,
                i as int,
            ),
        decreases i,
    {
        if stands_at(text, needle, i) {
            return Some(i);
        }
        if i == 0 {
            assert(last_occurrence(text@, needle@, -1) is None);
            return None;
        }
        i = i - 1;
    }
}

/// The parts in order, with `separator` between them.
pub open spec fn joined(parts: Seq<Seq<char>>, separator: Seq<char>) -> Seq<char>
    decreases parts.len(),
{
    if parts.len() == 0 {
        seq![]
    } else if parts.len() == 1 {
        parts[0]
    } else {
        joined(parts.drop_last(), separator) + separator + parts.last()
    }
}

/// Puts `text` at the end of `out`.
pub fn append(out: &mut Vec<char>, text: &[char])
    ensures
        final(out)@ == old(out)@ + text@,
{
    let mut i: usize = 0;
    while i < text.len()
        invariant
            i <= text@.len(),
            out@ == old(out)@ + text@.take(i as int),
        decreases text@.len() - i,
    {
        out.push(text[i]);
        i = i + 1;
    }
    assert(text@.take(i as int) =~= text@);
}

/// The characters of a string.
pub fn chars(text: &str) -> (result: Vec<char>)
    ensures
        result@ == text@,
{
    let mut result: Vec<char> = Vec::new();
    for c in it: text.chars()
        invariant
            result@ == it.seq().take(it.index() as int),
            it.seq() == text@,
    {
        result.push(c);
    }
    result
}

/// `String::push` puts the character at the end of the string.
pub assume_specification[ String::push ](s: &mut String, ch: char)
    ensures
        final(s)@ == old(s)@.push(ch),
;

/// The string made of the characters of `text`.
pub fn string_of(text: &[char]) -> (result: String)
    ensures
        result@ == text@,
{
    let mut result: String = String::new();
    let mut i: usize = 0;
    while i < text.len()
        invariant
            i <= text@.len(),
            result@ == text@.take(i as int),
        decreases text@.len() - i,
    {
        result.push(text[i]);
        i = i + 1;
    }
    assert(text@.take(i as int) =~= text@);
    result
}

/// The character of a decimal digit.
pub open spec fn digit(d: nat) -> char {
    ('0' as u32 + d) as char
}

/// A number in decimal.
pub open spec fn decimal(n: nat) -> Seq<char>
    decreases n,
{
    if n < 10 {
        seq![digit(n)]
    } else {
        decimal(n / 10).push(digit(n % 10))
    }
}

/// A number in decimal.
pub fn to_decimal(n: usize) -> (text: Vec<char>)
    ensures
        text@ == decimal(n as nat),
    decreases n,
{
    let d: u8 = (n % 10) as u8;
    let c: char = (0x30 + d) as char;
    let mut text: Vec<char> = if n < 10 {
        Vec::new()
    } else {
        to_decimal(n / 10)
    };
    text.push(c);
    text
}

/// The white space of Unicode, code point by code point.
pub proof fn law_white_space_is_that_of_unicode(c: char)
    ensures
        is_white_space(c) <==> seq![
            9u32,
            10,
            11,
            12,
            13,
            32,
            133,
            160,
            5760,
            8192,
            8193,
            8194,
            8195,
            8196,
            8197,
            8198,
            8199,
            8200,
            8201,
            8202,
            8232,
            8233,
            8239,
            8287,
            12288,
        ].contains(c as u32),
{
    let all = seq![
        9u32,
        10,
        11,
        12,
        13,
        32,
        133,
        160,
        5760,
        8192,
        8193,
        8194,
        8195,
        8196,
        8197,
        8198,
        8199,
        8200,
        8201,
        8202,
        8232,
        8233,
        8239,
        8287,
        12288,
    ];
    if is_white_space(c) {
        let p = c as u32;
        let i: int = if 9 <= p <= 13 {
            p - 9
        } else if p == 32 {
            5
        } else if p == 133 {
            6
        } else if p == 160 {
            7
        } else if p == 5760 {
            8
        } else if 8192 <= p <= 8202 {
            p - 8192 + 9
        } else if p == 8232 {
            20
        } else if p == 8233 {
            21
        } else if p == 8239 {
            22
        } else if p == 8287 {
            23
        } else {
            24
        };
        assert(all[i] == p);
    }
}

/// All characters are white space.
pub open spec fn is_blank(s: Seq<char>) -> bool {
    forall|i: int| 0 <= i < s.len() ==> is_white_space(#[trigger] s[i])
}

/// Trimming takes away white space at both ends, all of it, and nothing else: whatever text is put
/// between blanks, if it neither starts nor ends with white space, trimming gives it back.
pub proof fn law_trimming_takes_the_blanks_away(lead: Seq<char>, text: Seq<char>, trail: Seq<char>)
    requires
        is_blank(lead),
        is_blank(trail),
        text.len() > 0 ==> !is_white_space(text[0]) && !is_white_space(text.last()),
    ensures
        trimmed(lead + text + trail) == text,
        text.len() > 0 ==> trimmed_start(lead + text + trail) == text + trail,
        text.len() > 0 ==> trimmed_end(lead + text + trail) == lead + text,
        text.len() == 0 ==> trimmed_start(lead + text + trail).len() == 0,
        text.len() == 0 ==> trimmed_end(lead + text + trail).len() == 0,
{
    let s = lead + text + trail;
    if text.len() == 0 {
        lemma_blank_end(Seq::empty(), s);
        assert(Seq::<char>::empty() + s =~= s);
        lemma_blank_start(s, Seq::empty());
        assert(s + Seq::<char>::empty() =~= s);
        assert(trimmed(s) =~= text);
    } else {
        let rest = text + trail;
        assert(lead + rest =~= s);
        lemma_blank_start(lead, rest);
        assert(trimmed_start(rest) == rest);
        lemma_blank_end(text, trail);
        lemma_blank_end(lead + text, trail);
        assert((lead + text).last() == text.last());
    }
}

/// A blank at the start is trimmed.
pub proof fn lemma_blank_start(lead: Seq<char>, rest: Seq<char>)
    requires
        is_blank(lead),
    ensures
        trimmed_start(lead + rest) == trimmed_start(rest),
    decreases lead.len(),
{
    if lead.len() == 0 {
        assert(lead + rest =~= rest);
    } else {
        assert((lead + rest)[0] == lead[0]);
        assert((lead + rest).skip(1) =~= lead.skip(1) + rest);
        lemma_blank_start(lead.skip(1), rest);
    }
}

/// A blank at the end is trimmed.
pub proof fn lemma_blank_end(start: Seq<char>, trail: Seq<char>)
    requires
        is_blank(trail),
    ensures
        trimmed_end(start + trail) == trimmed_end(start),
    decreases trail.len(),
{
    if trail.len() == 0 {
        assert(start + trail =~= start);
    } else {
        assert((start + trail).last() == trail.last());
        assert((start + trail).drop_last() =~= start + trail.drop_last());
        lemma_blank_end(start, trail.drop_last());
    }
}

/// What stands before a character is what was put before it, as long as the character is not in it.
pub proof fn law_text_before_a_character(head: Seq<char>, c: char, tail: Seq<char>)
    requires
        !head.contains(c),
    ensures
        before(head + seq![c] + tail, c) == head,
        before(head, c) == head,
{
    let s = head + seq![c] + tail;
    lemma_first_char(s, c, 0);
    lemma_first_char(head, c, 0);
    assert(s[head.len() as int] == c);
    assert forall|j: int| 0 <= j < head.len() implies s[j] != c by {
        assert(s[j] == head[j]);
        assert(head.contains(head[j]));
    }
    assert(s.take(head.len() as int) =~= head);
}

/// Text stands where each of its characters does.
pub proof fn law_text_stands_character_by_character(s: Seq<char>, needle: Seq<char>, i: int)
    requires
        0 <= i,
        i + needle.len() <= s.len(),
    ensures
        occurs_at(s, needle, i) <==> forall|k: int|
            0 <= k < needle.len() ==> #[trigger] needle[k] == s[i + k],
{
    if occurs_at(s, needle, i) {
        assert forall|k: int| 0 <= k < needle.len() implies #[trigger] needle[k] == s[i + k] by {
            assert(s.subrange(i, i + needle.len())[k] == s[i + k]);
        }
    }
    if forall|k: int| 0 <= k < needle.len() ==> #[trigger] needle[k] == s[i + k] {
        assert(s.subrange(i, i + needle.len()) =~= needle);
    }
}

/// Where part `k` starts in joined parts.
pub open spec fn joined_start(parts: Seq<Seq<char>>, separator: Seq<char>, k: int) -> nat
    decreases k,
{
    if k <= 0 {
        0
    } else {
        joined_start(parts, separator, k - 1) + parts[k - 1].len() + separator.len()
    }
}

/// Joined parts stand in order, each right after the separator that follows the one before it;
/// nothing comes after the last.
pub proof fn law_joined_parts_stand_in_order(parts: Seq<Seq<char>>, separator: Seq<char>, k: int)
    requires
        0 <= k < parts.len(),
    ensures
        occurs_at(joined(parts, separator), parts[k], joined_start(parts, separator, k) as int),
        k > 0 ==> occurs_at(
            joined(parts, separator),
            separator,
            joined_start(parts, separator, k) - separator.len(),
        ),
        joined(parts, separator).len() == joined_start(parts, separator, parts.len() - 1)
            + parts.last().len(),
    decreases parts.len(),
{
    let n = parts.len() as int;
    let all = joined(parts, separator);
    if n == 1 {
        assert(all.subrange(0, parts[0].len() as int) =~= parts[0]);
    } else {
        let init = parts.drop_last();
        let head = joined(init, separator);
        law_joined_parts_stand_in_order(init, separator, n - 2);
        lemma_joined_start_of_init(parts, separator, n - 2);
        assert(joined_start(parts, separator, n - 1) == head.len() + separator.len());
        if k == n - 1 {
            let at = head.len() + separator.len();
            assert(all.subrange(at as int, (at + parts[k].len()) as int) =~= parts[k]);
            assert(all.subrange(head.len() as int, at as int) =~= separator);
        } else {
            law_joined_parts_stand_in_order(init, separator, k);
            lemma_joined_start_of_init(parts, separator, k);
            let at = joined_start(parts, separator, k) as int;
            assert(init[k] == parts[k]);
            assert(all.subrange(at, at + parts[k].len()) =~= head.subrange(
                at,
                at + parts[k].len(),
            ));
            if k > 0 {
                let sep = at - separator.len();
                assert(all.subrange(sep, at) =~= head.subrange(sep, at));
            }
        }
    }
}

proof fn lemma_joined_start_of_init(parts: Seq<Seq<char>>, separator: Seq<char>, k: int)
    requires
        0 <= k < parts.len(),
    ensures
        joined_start(parts.drop_last(), separator, k) == joined_start(parts, separator, k),
    decreases k,
{
    if k > 0 {
        lemma_joined_start_of_init(parts, separator, k - 1);
    }
}

/// The number that decimal digits stand for.
pub open spec fn number_of(digits: Seq<char>) -> int
    decreases digits.len(),
{
    if digits.len() == 0 {
        0
    } else {
        10 * number_of(digits.drop_last()) + (digits.last() as u32 - 48)
    }
}

/// A number in decimal stands for that number, in digits alone, without a zero in front.
pub proof fn law_decimals_read_back(n: nat)
    ensures
        number_of(decimal(n)) == n,
        decimal(n).len() > 0,
        forall|i: int| 0 <= i < decimal(n).len() ==> '0' <= #[trigger] decimal(n)[i] <= '9',
        decimal(n)[0] == '0' ==> n == 0 && decimal(n).len() == 1,
    decreases n,
{
    if n < 10 {
        assert(decimal(n).drop_last() =~= seq![]);
        assert(number_of(decimal(n).drop_last()) == 0);
    } else {
        law_decimals_read_back(n / 10);
        assert(decimal(n).drop_last() =~= decimal(n / 10));
        assert(decimal(n)[0] == decimal(n / 10)[0]);
    }
}

} // verus!
