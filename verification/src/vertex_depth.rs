//! Converts the depth written by vertex shaders from OpenGL's clip space to wgpu's.
//!
//! The engine builds its projection matrices the OpenGL way, with clip-space depth running from
//! `-w` to `w`. wgpu clips everything below zero instead, which throws away the near half of
//! every depth range, and it stores the rest unchanged, so depth read back from a depth buffer
//! no longer means what the shaders (written for OpenGL's `0..1` window depth) expect.
//!
//! Rather than touching every matrix in the engine, the vertex entry point is wrapped: the
//! user's `vs_main` is renamed and called from a generated `vs_main` that remaps the output
//! position with `z = (z + w) / 2`. After that, depth values are exactly OpenGL's window depth.
use crate::text::{
    append, before, chars, contains, find, find_char, first_char, first_occurrence, found,
    is_blank, is_white_space, joined, last_occurrence, law_text_before_a_character,
    law_trimming_takes_the_blanks_away, lemma_blank_start, lemma_first_char,
    lemma_first_occurrence, lemma_last_occurrence, lemma_trimmed_start_len, occurs_at, occurs_in,
    rfind, stands_at, string_of, trim, trim_start, trimmed, trimmed_end, trimmed_start,
};
use vstd::prelude::*;
use vstd::slice::slice_subrange;

verus! {

/// The ASCII letters and digits.
pub open spec fn is_ascii_letter_or_digit(c: char) -> bool {
    ||| 'a' <= c <= 'z'
    ||| 'A' <= c <= 'Z'
    ||| '0' <= c <= '9'
}

/// The characters an identifier is made of.
pub open spec fn is_ident_char(c: char) -> bool {
    is_ascii_letter_or_digit(c) || c == '_'
}

/// True for the characters an identifier is made of.
pub fn is_ident(c: char) -> (result: bool)
    ensures
        result == is_ident_char(c),
{
    ('a' <= c && c <= 'z') || ('A' <= c && c <= 'Z') || ('0' <= c && c <= '9') || c == '_'
}

/// `needle` stands in `s` at index `i`, and is not part of a longer identifier there.
pub open spec fn word_at(s: Seq<char>, needle: Seq<char>, i: int) -> bool {
    &&& occurs_at(s, needle, i)
    &&& i == 0 || !is_ident_char(s[i - 1])
    &&& i + needle.len() == s.len() || !is_ident_char(s[i + needle.len()])
}

/// The first index, from `from` on, at which `needle` stands in `s` as a word of its own.
pub open spec fn first_word(s: Seq<char>, needle: Seq<char>, from: int) -> Option<int>
    decreases s.len() + 1 - from,
{
    if from < 0 || from > s.len() {
        None
    } else if word_at(s, needle, from) {
        Some(from)
    } else {
        first_word(s, needle, from + 1)
    }
}

/// Finds `needle` where it is not part of a longer identifier.
pub fn find_word(source: &[char], needle: &[char]) -> (index: Option<usize>)
    ensures
        found(index) == first_word(source@, needle@, 0),
{
    let mut i: usize = 0;
    while i <= source.len()
        invariant
            i <= source@.len() + 1,
            first_word(source@, needle@, 0) == first_word(source@, needle@, i as int),
        decreases source@.len() + 1 - i,
    {
        if stands_at(source, needle, i) {
            let end: usize = i + needle.len();
            if (i == 0 || !is_ident(source[i - 1])) && (end == source.len() || !is_ident(
                source[end],
            )) {
                return Some(i);
            }
        }
        if i == source.len() {
            assert(first_word(source@, needle@, i + 1) is None);
            return None;
        }
        i = i + 1;
    }
    None
}

/// How many more parentheses open than close in `s`, from `open` up to `end`.
pub open spec fn balance(s: Seq<char>, open: int, end: int) -> int
    decreases end - open,
{
    if end <= open {
        0
    } else {
        balance(s, open, end - 1) + if s[end - 1] == '(' {
            1int
        } else if s[end - 1] == ')' {
            -1
        } else {
            0
        }
    }
}

/// The first `)`, from `from` on, that closes all that was opened since `open`.
pub open spec fn closing_paren(s: Seq<char>, open: int, from: int) -> Option<int>
    decreases s.len() - from,
{
    if from < 0 || from >= s.len() {
        None
    } else if s[from] == ')' && balance(s, open, from + 1) == 0 {
        Some(from)
    } else {
        closing_paren(s, open, from + 1)
    }
}

/// Finds the `)` that belongs to the `(` at `open`.
pub fn matching_paren(source: &[char], open: usize) -> (close: Option<usize>)
    ensures
        found(close) == closing_paren(source@, open as int, open as int),
{
    let mut depth: i128 = 0;
    let mut i: usize = open;
    while i < source.len()
        invariant
            open <= i,
            depth == balance(source@, open as int, i as int),
            -(i - open) <= depth <= i - open,
            closing_paren(source@, open as int, open as int) == closing_paren(
                source@,
                open as int,
                i as int,
            ),
        decreases source@.len() - i,
    {
        if source[i] == '(' {
            depth = depth + 1;
        } else if source[i] == ')' {
            depth = depth - 1;
            if depth == 0 {
                return Some(i);
            }
        }
        i = i + 1;
    }
    None
}

/// The contents of slices.
pub open spec fn views(parts: Seq<&[char]>) -> Seq<Seq<char>> {
    parts.map_values(|part: &[char]| part@)
}

/// How many `(` are open after the first `end` characters. A `)` closes one of them, if there is one.
pub open spec fn open_parens(text: Seq<char>, end: int) -> nat
    decreases end,
{
    if end <= 0 {
        0
    } else {
        let open = open_parens(text, end - 1);
        if text[end - 1] == '(' {
            open + 1
        } else if text[end - 1] == ')' && open > 0 {
            (open - 1) as nat
        } else {
            open
        }
    }
}

/// The `>`, from `from` on, that closes the last of `depth` open `<`. Whatever stands in parentheses
/// is passed over, and the parentheses that the `<` stand in end the search. Parentheses that
/// belong to no other are no brackets.
pub open spec fn closing_angle(text: Seq<char>, depth: nat, from: int) -> Option<int>
    decreases text.len() - from,
{
    if from < 0 || from >= text.len() {
        None
    } else if text[from] == '<' {
        closing_angle(text, depth + 1, from + 1)
    } else if text[from] == '>' {
        if depth <= 1 {
            Some(from)
        } else {
            closing_angle(text, (depth - 1) as nat, from + 1)
        }
    } else if text[from] == '(' {
        match closing_paren(text, from, from) {
            Some(close) if from < close < text.len() => closing_angle(text, depth, close + 1),
            _ => closing_angle(text, depth, from + 1),
        }
    } else if text[from] == ')' && open_parens(text, from) > 0 {
        None
    } else {
        closing_angle(text, depth, from + 1)
    }
}

/// The bracket that closes the one at `i`. There is none if `i` is no place of a bracket that opens,
/// or if it is never closed.
pub open spec fn closer(text: Seq<char>, i: int) -> Option<int> {
    if text[i] == '(' {
        closing_paren(text, i, i)
    } else if text[i] == '<' {
        closing_angle(text, 1, i + 1)
    } else {
        None
    }
}

/// The bracket at `open` and the one that closes it stand on either side of `i`.
pub open spec fn encloses(text: Seq<char>, open: int, i: int) -> bool {
    0 <= open < i && (closer(text, open) matches Some(close) && i < close)
}

/// There is a comma at `i` that is not inside `()` or `<>`: it stands between no bracket and the
/// bracket that closes it.
pub open spec fn separates(text: Seq<char>, i: int) -> bool {
    text[i] == ',' && forall|open: int| !encloses(text, open, i)
}

/// The parts that the separating commas make of the first `end` characters.
pub open spec fn top_level_parts(text: Seq<char>, end: int) -> Seq<Seq<char>>
    decreases end,
{
    if end <= 0 {
        seq![seq![]]
    } else {
        let parts = top_level_parts(text, end - 1);
        if separates(text, end - 1) {
            parts.push(seq![])
        } else {
            parts.drop_last().push(parts.last().push(text[end - 1]))
        }
    }
}

/// True if a `(` is open after the first `end` characters.
fn is_in_parens(text: &[char], end: usize) -> (result: bool)
    requires
        end <= text@.len(),
    ensures
        result == (open_parens(text@, end as int) > 0),
{
    let mut open: usize = 0;
    let mut i: usize = 0;
    while i < end
        invariant
            i <= end <= text@.len(),
            open == open_parens(text@, i as int),
            open <= i,
        decreases end - i,
    {
        if text[i] == '(' {
            open = open + 1;
        } else if text[i] == ')' && open > 0 {
            open = open - 1;
        }
        i = i + 1;
    }
    open > 0
}

/// Finds the `>` that closes the `<` at `open`.
pub fn matching_angle(text: &[char], open: usize) -> (close: Option<usize>)
    requires
        open < text@.len(),
    ensures
        found(close) == closing_angle(text@, 1, open + 1),
{
    assert(text@.len() == text.len());
    let mut depth: usize = 1;
    let mut i: usize = open + 1;
    while i < text.len()
        invariant
            open < i <= text@.len(),
            1 <= depth <= i,
            closing_angle(text@, 1, open + 1) == closing_angle(text@, depth as nat, i as int),
        decreases text@.len() - i,
    {
        let c: char = text[i];
        if c == '<' {
            depth = depth + 1;
        } else if c == '>' {
            if depth == 1 {
                return Some(i);
            }
            depth = depth - 1;
        } else if c == '(' {
            proof {
                law_matching_parens_close_first(text@, i as int, i as int);
            }
            if let Some(close) = matching_paren(text, i) {
                i = close;
            }
        } else if c == ')' && is_in_parens(text, i) {
            return None;
        }
        i = i + 1;
    }
    None
}

/// Finds the bracket that closes the one at `i`.
pub fn find_closer(text: &[char], i: usize) -> (close: Option<usize>)
    requires
        i < text@.len(),
    ensures
        found(close) == closer(text@, i as int),
{
    if text[i] == '(' {
        matching_paren(text, i)
    } else if text[i] == '<' {
        matching_angle(text, i)
    } else {
        None
    }
}

/// Splits on commas that are not inside `()` or `<>`.
pub fn split_top_level(text: &[char]) -> (parts: Vec<&[char]>)
    ensures
        views(parts@) == top_level_parts(text@, text@.len() as int),
{
    let mut parts: Vec<&[char]> = Vec::new();
    // Where the last of the brackets that were opened so far is closed.
    let mut reach: usize = 0;
    let mut start: usize = 0;
    let mut i: usize = 0;
    assert(text@.subrange(0, 0) =~= seq![]);
    assert(top_level_parts(text@, 0) =~= views(parts@).push(text@.subrange(0, 0)));
    while i < text.len()
        invariant
            start <= i <= text@.len(),
            forall|open: int|
                0 <= open < i ==> (#[trigger] closer(text@, open) matches Some(close) ==> close
                    <= reach),
            reach > 0 ==> exists|open: int|
                0 <= open < i && #[trigger] closer(text@, open) == Some(reach as int),
            top_level_parts(text@, i as int) == views(parts@).push(
                text@.subrange(start as int, i as int),
            ),
        decreases text@.len() - i,
    {
        let ghost done = views(parts@);
        let ghost part = text@.subrange(start as int, i as int);
        proof {
            if reach > i {
                let open = choose|open: int|
                    0 <= open < i && #[trigger] closer(text@, open) == Some(reach as int);
                assert(encloses(text@, open, i as int));
            }
        }
        if text[i] == ',' && reach <= i {
            assert(separates(text@, i as int));
            parts.push(slice_subrange(text, start, i));
            start = i + 1;
            assert(views(parts@) =~= done.push(part));
            assert(text@.subrange(start as int, i + 1) =~= seq![]);
        } else {
            assert(!separates(text@, i as int));
            assert(done.push(part).drop_last() =~= done);
            assert(text@.subrange(start as int, i + 1) =~= part.push(text@[i as int]));
        }
        if let Some(close) = find_closer(text, i) {
            assert(closer(text@, i as int) == Some(close as int));
            if close > reach {
                reach = close;
            }
        }
        i = i + 1;
    }
    let ghost done = views(parts@);
    parts.push(slice_subrange(text, start, text.len()));
    assert(views(parts@) =~= done.push(text@.subrange(start as int, i as int)));
    parts
}

/// What `char::is_alphanumeric` says of a character outside ASCII.
pub uninterp spec fn is_unicode_alphanumeric(c: char) -> bool;

/// `char::is_alphanumeric` tells Unicode's letters and numbers. Among the ASCII characters those
/// are the ASCII letters and digits.
pub assume_specification[ char::is_alphanumeric ](c: char) -> (result: bool)
    ensures
        result == if c <= '\u{7f}' {
            is_ascii_letter_or_digit(c)
        } else {
            is_unicode_alphanumeric(c)
        },
;

/// The characters an attribute's name is made of.
pub open spec fn is_attribute_char(c: char) -> bool {
    ||| c == '_'
    ||| if c <= '\u{7f}' {
        is_ascii_letter_or_digit(c)
    } else {
        is_unicode_alphanumeric(c)
    }
}

/// The index, from `from` on, at which an attribute's name ends.
pub open spec fn attribute_name_end(text: Seq<char>, from: int) -> int
    decreases text.len() - from,
{
    if 0 <= from < text.len() && is_attribute_char(text[from]) {
        attribute_name_end(text, from + 1)
    } else {
        from
    }
}

/// A name ends no earlier than it starts, and within the text.
pub proof fn lemma_attribute_name_end(text: Seq<char>, from: int)
    requires
        0 <= from <= text.len(),
    ensures
        from <= attribute_name_end(text, from) <= text.len(),
    decreases text.len() - from,
{
    if from < text.len() && is_attribute_char(text[from]) {
        lemma_attribute_name_end(text, from + 1);
    }
}

/// A closing parenthesis is found where it was looked for, within the text.
pub proof fn lemma_closing_paren_range(s: Seq<char>, open: int, from: int)
    ensures
        closing_paren(s, open, from) matches Some(close) ==> from <= close < s.len(),
    decreases s.len() - from,
{
    if 0 <= from < s.len() {
        lemma_closing_paren_range(s, open, from + 1);
    }
}

/// What follows the name of the attribute that `text` starts with.
pub open spec fn after_attribute_name(text: Seq<char>) -> Seq<char> {
    trimmed_start(text.skip(attribute_name_end(text, 1)))
}

/// `text` without the `@attr` and `@attr(...)` annotations that it starts with. An annotation
/// whose parentheses do not close is kept, with all that follows it.
pub open spec fn without_attributes(text: Seq<char>) -> Seq<char>
    decreases text.len(),
{
    if text.len() == 0 || text[0] != '@' {
        text
    } else {
        let after = after_attribute_name(text);
        proof {
            lemma_attribute_name_end(text, 1);
            lemma_trimmed_start_len(text.skip(attribute_name_end(text, 1)));
            lemma_closing_paren_range(after, 0, 0);
        }
        if after.len() > 0 && after[0] == '(' {
            match closing_paren(after, 0, 0) {
                Some(close) => {
                    proof {
                        lemma_trimmed_start_len(after.skip(close + 1));
                    }
                    without_attributes(trimmed_start(after.skip(close + 1)))
                },
                None => text,
            }
        } else {
            without_attributes(after)
        }
    }
}

/// Removes leading `@attr` / `@attr(...)` annotations.
pub fn strip_attributes(text: &[char]) -> (rest: &[char])
    ensures
        rest@ == without_attributes(trimmed(text@)),
{
    let mut rest: &[char] = trim(text);
    while rest.len() > 0 && rest[0] == '@'
        invariant
            without_attributes(trimmed(text@)) == without_attributes(rest@),
        decreases rest@.len(),
    {
        let mut end: usize = 1;
        proof {
            lemma_attribute_name_end(rest@, 1);
        }
        while end < rest.len() && (rest[end] == '_' || rest[end].is_alphanumeric())
            invariant
                1 <= end <= rest@.len(),
                attribute_name_end(rest@, 1) == attribute_name_end(rest@, end as int),
            decreases rest@.len() - end,
        {
            end = end + 1;
        }
        let named = slice_subrange(rest, end, rest.len());
        assert(named@ =~= rest@.skip(end as int));
        let after = trim_start(named);
        proof {
            lemma_trimmed_start_len(named@);
        }
        if after.len() > 0 && after[0] == '(' {
            proof {
                lemma_closing_paren_range(after@, 0, 0);
            }
            match matching_paren(after, 0) {
                Some(close) => {
                    let closed = slice_subrange(after, close + 1, after.len());
                    assert(closed@ =~= after@.skip(close + 1));
                    proof {
                        lemma_trimmed_start_len(closed@);
                    }
                    rest = trim_start(closed);
                },
                None => {
                    return rest;
                },
            }
        } else {
            rest = after;
        }
    }
    rest
}

/// The name that a declaration gives, which ends at its colon.
pub open spec fn declared_name(declaration: Seq<char>) -> Seq<char> {
    trimmed(before(without_attributes(trimmed(declaration)), ':'))
}

/// The name that a declaration gives, which ends at its colon.
pub fn name_of<'a>(declaration: &'a [char]) -> (name: &'a [char])
    ensures
        name@ == declared_name(declaration@),
{
    let bare = strip_attributes(declaration);
    match find_char(bare, ':', 0) {
        Some(colon) => {
            proof {
                lemma_first_char(bare@, ':', 0);
            }
            let name = slice_subrange(bare, 0, colon);
            assert(name@ =~= bare@.take(colon as int));
            trim(name)
        },
        None => trim(bare),
    }
}

/// The name of the member of `struct structure` that carries `@builtin(position)`.
pub open spec fn position_member(source: Seq<char>, structure: Seq<char>) -> Option<Seq<char>> {
    match first_word(source, "struct "@ + structure, 0) {
        Some(declaration) => match first_char(source, '{', declaration) {
            Some(open) => match first_char(source, '}', open) {
                Some(close) => {
                    let members = source.subrange(open + 1, close);
                    match first_occurrence(members, "@builtin(position)"@, 0) {
                        Some(i) => Some(declared_name(members.skip(i))),
                        None => None,
                    }
                },
                None => None,
            },
            None => None,
        },
        None => None,
    }
}

/// Finds the member of `struct structure` that carries `@builtin(position)`.
pub fn position_field<'a>(source: &'a [char], structure: &[char]) -> (field: Option<&'a [char]>)
    ensures
        match field {
            Some(f) => position_member(source@, structure@) == Some(f@),
            None => position_member(source@, structure@) is None,
        },
{
    let mut needle: Vec<char> = chars("struct ");
    append(&mut needle, structure);
    let declaration: usize = match find_word(source, needle.as_slice()) {
        Some(declaration) => declaration,
        None => {
            return None;
        },
    };
    let open: usize = match find_char(source, '{', declaration) {
        Some(open) => open,
        None => {
            return None;
        },
    };
    let close: usize = match find_char(source, '}', open) {
        Some(close) => close,
        None => {
            return None;
        },
    };
    proof {
        lemma_first_char(source@, '{', declaration as int);
        lemma_first_char(source@, '}', open as int);
    }
    let members = slice_subrange(source, open + 1, close);
    let marker: Vec<char> = chars("@builtin(position)");
    proof {
        lemma_first_occurrence(members@, marker@, 0);
    }
    match find(members, marker.as_slice()) {
        Some(i) => {
            let member = slice_subrange(members, i, members.len());
            assert(member@ =~= members@.skip(i as int));
            Some(name_of(member))
        },
        None => None,
    }
}

/// Where the parts of a vertex entry point lie: its `@vertex` attribute, the parentheses round its
/// parameters, and the `{` of its body.
pub struct EntryPoint {
    pub attribute: int,
    pub open: int,
    pub close: int,
    pub body: int,
}

/// The entry point of `source`: the first `fn vs_main`, which `@vertex` has to stand right before.
pub open spec fn entry_point(source: Seq<char>) -> Option<EntryPoint> {
    match first_word(source, "fn vs_main"@, 0) {
        Some(name) => match (
            first_char(source, '(', name),
            last_occurrence(source.take(name), "@vertex"@, name),
        ) {
            (Some(open), Some(attribute)) => match closing_paren(source, open, open) {
                Some(close) => match first_char(source, '{', close) {
                    Some(body) => if trimmed(
                        source.subrange(attribute + "@vertex"@.len(), name),
                    ).len() == 0 {
                        Some(EntryPoint { attribute, open, close, body })
                    } else {
                        None
                    },
                    None => None,
                },
                None => None,
            },
            _ => None,
        },
        None => None,
    }
}

/// The parts that hold more than white space.
pub open spec fn nonblank(parts: Seq<Seq<char>>) -> Seq<Seq<char>>
    decreases parts.len(),
{
    if parts.len() == 0 {
        seq![]
    } else if trimmed(parts.last()).len() > 0 {
        nonblank(parts.drop_last()).push(parts.last())
    } else {
        nonblank(parts.drop_last())
    }
}

/// The parameters of an entry point, as they are written.
pub open spec fn parameters(source: Seq<char>, entry: EntryPoint) -> Seq<Seq<char>> {
    let list = source.subrange(entry.open + 1, entry.close);
    nonblank(top_level_parts(list, list.len() as int))
}

/// The parameters without their attributes.
pub open spec fn bare_parameters(parameters: Seq<Seq<char>>) -> Seq<Seq<char>> {
    parameters.map_values(|p: Seq<char>| without_attributes(trimmed(p)))
}

/// The names of the parameters.
pub open spec fn arguments(parameters: Seq<Seq<char>>) -> Seq<Seq<char>> {
    parameters.map_values(|p: Seq<char>| declared_name(p))
}

/// What an entry point returns, as it is written after its `->`.
pub open spec fn return_type(source: Seq<char>, entry: EntryPoint) -> Option<Seq<char>> {
    let arrow = trimmed(source.subrange(entry.close + 1, entry.body));
    if occurs_at(arrow, "->"@, 0) {
        Some(trimmed(arrow.skip(2)))
    } else {
        None
    }
}

/// How a renamed entry point's result becomes that of its wrapper: the type it is returned as, and
/// the statement that remaps the depth of the position in it.
pub struct Remapping {
    pub inner_type: Seq<char>,
    pub statement: Seq<char>,
}

/// The remapping for an entry point that returns `result`: of the result itself, where that is the
/// position, or of the member that is.
pub open spec fn remapping(source: Seq<char>, result: Seq<char>) -> Option<Remapping> {
    if occurs_in(result, "@builtin(position)"@) {
        Some(
            Remapping {
                inner_type: without_attributes(trimmed(result)),
                statement: "    out.z = (out.z + out.w) * 0.5;\n"@,
            },
        )
    } else {
        match position_member(source, result) {
            Some(field) => Some(
                Remapping {
                    inner_type: result,
                    statement: "    out."@ + field + ".z = (out."@ + field + ".z + out."@ + field
                        + ".w) * 0.5;\n"@,
                },
            ),
            None => None,
        }
    }
}

/// The user's entry point under its new name, up to its body.
pub open spec fn renamed(parameters: Seq<Seq<char>>, remapping: Remapping) -> Seq<char> {
    "fn fyrox_user_vs_main("@ + joined(bare_parameters(parameters), ", "@) + ") -> "@
        + remapping.inner_type
}

/// The entry point that calls the renamed one and remaps the depth of what it returns.
pub open spec fn wrapper(
    parameters: Seq<Seq<char>>,
    result: Seq<char>,
    remapping: Remapping,
) -> Seq<char> {
    "\n@vertex\nfn vs_main("@ + joined(parameters, ", "@) + ") -> "@ + result
        + " {\n    var out = fyrox_user_vs_main("@ + joined(arguments(parameters), ", "@) + ");\n"@
        + remapping.statement + "    return out;\n}\n"@
}

/// Every parameter has a name.
pub open spec fn all_named(parameters: Seq<Seq<char>>) -> bool {
    forall|i: int| 0 <= i < parameters.len() ==> declared_name(#[trigger] parameters[i]).len() > 0
}

/// `source` with its vertex entry point wrapped, where that could be understood: what stands before
/// the entry point and from its body on is kept, the entry point is renamed, and the wrapper
/// follows at the end.
pub open spec fn remapped(source: Seq<char>) -> Option<Seq<char>> {
    match entry_point(source) {
        Some(entry) => match return_type(source, entry) {
            Some(result) => match remapping(source, result) {
                Some(remapping) => if all_named(parameters(source, entry)) {
                    Some(
                        source.take(entry.attribute) + renamed(
                            parameters(source, entry),
                            remapping,
                        ) + source.skip(entry.body) + wrapper(
                            parameters(source, entry),
                            result,
                            remapping,
                        ),
                    )
                } else {
                    None
                },
                None => None,
            },
            None => None,
        },
        None => None,
    }
}

/// The parts that hold more than white space.
pub fn nonblank_parts<'a>(parts: &Vec<&'a [char]>) -> (result: Vec<&'a [char]>)
    ensures
        views(result@) == nonblank(views(parts@)),
{
    let mut result: Vec<&'a [char]> = Vec::new();
    let mut i: usize = 0;
    assert(views(result@) =~= nonblank(views(parts@).take(0)));
    while i < parts.len()
        invariant
            i <= parts@.len(),
            views(result@) == nonblank(views(parts@).take(i as int)),
        decreases parts@.len() - i,
    {
        let ghost kept = views(result@);
        let part: &'a [char] = parts[i];
        assert(views(parts@).take(i + 1).drop_last() =~= views(parts@).take(i as int));
        if trim(part).len() > 0 {
            result.push(part);
            assert(views(result@) =~= kept.push(part@));
        }
        i = i + 1;
    }
    assert(views(parts@).take(i as int) =~= views(parts@));
    result
}

/// Puts the parts at the end of `out`, with `separator` between them.
pub fn append_joined(out: &mut Vec<char>, parts: &Vec<&[char]>, separator: &[char])
    ensures
        final(out)@ == old(out)@ + joined(views(parts@), separator@),
{
    let mut i: usize = 0;
    assert(joined(views(parts@).take(0), separator@) =~= seq![]);
    while i < parts.len()
        invariant
            i <= parts@.len(),
            out@ == old(out)@ + joined(views(parts@).take(i as int), separator@),
        decreases parts@.len() - i,
    {
        let ghost list = views(parts@);
        assert(list.take(i + 1).drop_last() =~= list.take(i as int));
        if i > 0 {
            append(out, separator);
        }
        append(out, parts[i]);
        assert(out@ =~= old(out)@ + joined(list.take(i + 1), separator@));
        i = i + 1;
    }
    assert(views(parts@).take(i as int) =~= views(parts@));
}

/// Puts `text` at the end of `out`.
fn append_str(out: &mut Vec<char>, text: &str)
    ensures
        final(out)@ == old(out)@ + text@,
{
    let text = chars(text);
    append(out, text.as_slice());
}

/// Finds the entry point of `source`: the indices of its attribute, of its parentheses, and of the
/// `{` of its body.
pub fn find_entry_point(source: &[char]) -> (entry: Option<(usize, usize, usize, usize)>)
    ensures
        match entry {
            Some((attribute, open, close, body)) => entry_point(source@) == Some(
                EntryPoint {
                    attribute: attribute as int,
                    open: open as int,
                    close: close as int,
                    body: body as int,
                },
            ) && attribute <= open < close < body < source@.len(),
            None => entry_point(source@) is None,
        },
{
    let name: usize = match find_word(source, chars("fn vs_main").as_slice()) {
        Some(name) => name,
        None => {
            return None;
        },
    };
    proof {
        law_words_are_found_first(source@, "fn vs_main"@, 0);
    }
    let open: usize = match find_char(source, '(', name) {
        Some(open) => open,
        None => {
            return None;
        },
    };
    proof {
        lemma_first_char(source@, '(', name as int);
        lemma_closing_paren_range(source@, open as int, open as int);
    }
    let head = slice_subrange(source, 0, name);
    assert(head@ =~= source@.take(name as int));
    let mark = chars("@vertex");
    let attribute: usize = match rfind(head, mark.as_slice()) {
        Some(attribute) => attribute,
        None => {
            return None;
        },
    };
    proof {
        lemma_last_occurrence(head@, mark@, name as int);
    }
    let close: usize = match matching_paren(source, open) {
        Some(close) => close,
        None => {
            return None;
        },
    };
    let body: usize = match find_char(source, '{', close) {
        Some(body) => body,
        None => {
            return None;
        },
    };
    proof {
        lemma_first_char(source@, '{', close as int);
        law_matching_parens_close_first(source@, open as int, open as int);
    }
    let between = slice_subrange(source, attribute + mark.len(), name);
    if trim(between).len() == 0 {
        Some((attribute, open, close, body))
    } else {
        None
    }
}

/// Takes the parameters apart into what is left without their attributes and their names, or
/// returns [`None`] if one has no name.
pub fn bare_and_names<'a>(params: &Vec<&'a [char]>) -> (result: Option<
    (Vec<&'a [char]>, Vec<&'a [char]>),
>)
    ensures
        match result {
            Some((bare, names)) => all_named(views(params@)) && views(bare@) == bare_parameters(
                views(params@),
            ) && views(names@) == arguments(views(params@)),
            None => !all_named(views(params@)),
        },
{
    let ghost parameters = views(params@);
    let mut bare: Vec<&'a [char]> = Vec::new();
    let mut names: Vec<&'a [char]> = Vec::new();
    let mut i: usize = 0;
    while i < params.len()
        invariant
            i <= params@.len(),
            views(params@) == parameters,
            views(bare@) == bare_parameters(parameters).take(i as int),
            views(names@) == arguments(parameters).take(i as int),
            forall|j: int| 0 <= j < i ==> declared_name(#[trigger] parameters[j]).len() > 0,
        decreases params@.len() - i,
    {
        let ghost bare_before = views(bare@);
        let ghost names_before = views(names@);
        assert(parameters[i as int] == params@[i as int]@);
        let name = name_of(params[i]);
        if name.len() == 0 {
            return None;
        }
        let rest = strip_attributes(params[i]);
        names.push(name);
        bare.push(rest);
        assert(views(bare@) =~= bare_before.push(rest@));
        assert(views(names@) =~= names_before.push(name@));
        assert(bare_parameters(parameters).take(i + 1) =~= bare_before.push(rest@));
        assert(arguments(parameters).take(i + 1) =~= names_before.push(name@));
        i = i + 1;
    }
    assert(bare_parameters(parameters).take(i as int) =~= bare_parameters(parameters));
    assert(arguments(parameters).take(i as int) =~= arguments(parameters));
    Some((bare, names))
}

/// Finds what a renamed entry point that returned `result` returns, and the statement that remaps
/// the depth of it.
pub fn find_remapping<'a>(source: &[char], result: &'a [char]) -> (found: Option<
    (&'a [char], Vec<char>),
>)
    ensures
        match found {
            Some((inner_type, statement)) => remapping(source@, result@) == Some(
                Remapping { inner_type: inner_type@, statement: statement@ },
            ),
            None => remapping(source@, result@) is None,
        },
{
    if contains(result, chars("@builtin(position)").as_slice()) {
        return Some((strip_attributes(result), chars("    out.z = (out.z + out.w) * 0.5;\n")));
    }
    let field = match position_field(source, result) {
        Some(field) => field,
        None => {
            return None;
        },
    };
    let mut statement: Vec<char> = chars("    out.");
    append(&mut statement, field);
    append_str(&mut statement, ".z = (out.");
    append(&mut statement, field);
    append_str(&mut statement, ".z + out.");
    append(&mut statement, field);
    append_str(&mut statement, ".w) * 0.5;\n");
    Some((result, statement))
}

/// The user's entry point under its new name, up to its body.
fn renamed_text(bare: &Vec<&[char]>, inner_type: &[char]) -> (text: Vec<char>)
    ensures
        text@ == "fn fyrox_user_vs_main("@ + joined(views(bare@), ", "@) + ") -> "@ + inner_type@,
{
    let mut text: Vec<char> = chars("fn fyrox_user_vs_main(");
    append_joined(&mut text, bare, chars(", ").as_slice());
    append_str(&mut text, ") -> ");
    append(&mut text, inner_type);
    text
}

/// The entry point that calls the renamed one and remaps the depth of what it returns.
fn wrapper_text(
    params: &Vec<&[char]>,
    names: &Vec<&[char]>,
    result: &[char],
    statement: &[char],
) -> (text: Vec<char>)
    ensures
        text@ == "\n@vertex\nfn vs_main("@ + joined(views(params@), ", "@) + ") -> "@ + result@
            + " {\n    var out = fyrox_user_vs_main("@ + joined(views(names@), ", "@) + ");\n"@
            + statement@ + "    return out;\n}\n"@,
{
    let comma = chars(", ");
    let mut text: Vec<char> = chars("\n@vertex\nfn vs_main(");
    append_joined(&mut text, params, comma.as_slice());
    append_str(&mut text, ") -> ");
    append(&mut text, result);
    append_str(&mut text, " {\n    var out = fyrox_user_vs_main(");
    append_joined(&mut text, names, comma.as_slice());
    append_str(&mut text, ");\n");
    append(&mut text, statement);
    append_str(&mut text, "    return out;\n}\n");
    text
}

/// Returns `source` with its `vs_main` wrapped as described in the module docs, or [`None`] if the
/// entry point could not be understood - the source is then used unchanged.
pub fn remap_vertex_depth(source: &str) -> (result: Option<String>)
    ensures
        match result {
            Some(text) => remapped(source@) == Some(text@),
            None => remapped(source@) is None,
        },
{
    let text = chars(source);
    let text: &[char] = text.as_slice();
    let (attribute, open, close, body) = match find_entry_point(text) {
        Some(entry) => entry,
        None => {
            return None;
        },
    };
    let params = nonblank_parts(&split_top_level(slice_subrange(text, open + 1, close)));
    let arrow = trim(slice_subrange(text, close + 1, body));
    if !stands_at(arrow, chars("->").as_slice(), 0) {
        return None;
    }
    proof {
        reveal_strlit("->");
    }
    let ret = slice_subrange(arrow, 2, arrow.len());
    assert(ret@ =~= arrow@.skip(2));
    let ret = trim(ret);
    let (bare, names) = match bare_and_names(&params) {
        Some(parts) => parts,
        None => {
            return None;
        },
    };
    let (inner_type, statement) = match find_remapping(text, ret) {
        Some(remapping) => remapping,
        None => {
            return None;
        },
    };
    let renamed = renamed_text(&bare, inner_type);
    let wrapper = wrapper_text(&params, &names, ret, statement.as_slice());
    let mut result: Vec<char> = Vec::new();
    let head = slice_subrange(text, 0, attribute);
    assert(head@ =~= source@.take(attribute as int));
    let tail = slice_subrange(text, body, text.len());
    assert(tail@ =~= source@.skip(body as int));
    append(&mut result, head);
    assert(result@ =~= head@);
    append(&mut result, renamed.as_slice());
    append(&mut result, tail);
    append(&mut result, wrapper.as_slice());
    Some(string_of(result.as_slice()))
}

/// A word is found where it stands first, and is found if it stands anywhere.
pub proof fn law_words_are_found_first(s: Seq<char>, needle: Seq<char>, from: int)
    requires
        0 <= from,
    ensures
        match first_word(s, needle, from) {
            Some(i) => from <= i && word_at(s, needle, i) && forall|j: int|
                from <= j < i ==> !word_at(s, needle, j),
            None => forall|j: int| from <= j ==> !word_at(s, needle, j),
        },
    decreases s.len() + 1 - from,
{
    if from <= s.len() && !word_at(s, needle, from) {
        law_words_are_found_first(s, needle, from + 1);
    }
}

/// The parenthesis that is found closes all that was opened since `open`, and none before it does.
pub proof fn law_matching_parens_close_first(s: Seq<char>, open: int, from: int)
    requires
        0 <= from,
    ensures
        match closing_paren(s, open, from) {
            Some(close) => from <= close < s.len() && s[close] == ')' && balance(s, open, close + 1)
                == 0 && forall|j: int|
                from <= j < close ==> !(#[trigger] s[j] == ')' && balance(s, open, j + 1) == 0),
            None => forall|j: int|
                from <= j < s.len() ==> !(#[trigger] s[j] == ')' && balance(s, open, j + 1) == 0),
        },
    decreases s.len() - from,
{
    if from < s.len() && !(s[from] == ')' && balance(s, open, from + 1) == 0) {
        law_matching_parens_close_first(s, open, from + 1);
    }
}

/// Splitting loses nothing but the separating commas: put between the parts again, they make up the
/// text.
pub proof fn law_split_parts_join_to_the_text(text: Seq<char>, end: int)
    requires
        0 <= end <= text.len(),
    ensures
        top_level_parts(text, end).len() > 0,
        joined(top_level_parts(text, end), seq![',']) == text.take(end),
    decreases end,
{
    if end > 0 {
        law_split_parts_join_to_the_text(text, end - 1);
        let parts = top_level_parts(text, end - 1);
        let c = text[end - 1];
        assert(text.take(end) =~= text.take(end - 1).push(c));
        if separates(text, end - 1) {
            assert(parts.push(seq![]).drop_last() =~= parts);
            assert(joined(parts.push(seq![]), seq![',']) =~= text.take(end));
        } else {
            let grown = parts.drop_last().push(parts.last().push(c));
            assert(grown.drop_last() =~= parts.drop_last());
            assert(joined(grown, seq![',']) =~= text.take(end));
        }
    } else {
        assert(text.take(0) =~= seq![]);
    }
}

/// A bracket is closed after it opened, by one that looks like it.
pub proof fn law_closers_follow_and_match(text: Seq<char>, i: int)
    requires
        0 <= i < text.len(),
    ensures
        closer(text, i) matches Some(close) ==> {
            &&& i < close < text.len()
            &&& text[i] == '(' && text[close] == ')' || text[i] == '<' && text[close] == '>'
        },
{
    if text[i] == '(' {
        law_matching_parens_close_first(text, i, i);
    } else if text[i] == '<' {
        lemma_closing_angle(text, 1, i + 1);
    }
}

/// A comma separates where no bracket opens before it, and where none closes after it.
pub proof fn law_commas_outside_of_brackets_separate(text: Seq<char>, i: int)
    requires
        0 <= i < text.len(),
        text[i] == ',',
        (forall|j: int| 0 <= j < i ==> text[j] != '(' && text[j] != '<') || (forall|j: int|
            i < j < text.len() ==> text[j] != ')' && text[j] != '>'),
    ensures
        separates(text, i),
{
    assert forall|open: int| !encloses(text, open, i) by {
        if 0 <= open < i {
            law_closers_follow_and_match(text, open);
        }
    }
}

/// No comma separates between a bracket and the one that closes it, whatever else stands there.
pub proof fn law_commas_inside_of_brackets_do_not_separate(text: Seq<char>, open: int, i: int)
    requires
        encloses(text, open, i),
    ensures
        !separates(text, i),
{
}

/// Text that starts with an annotation whose parentheses do not close.
pub open spec fn starts_unclosed(text: Seq<char>) -> bool {
    &&& text.len() > 0
    &&& text[0] == '@'
    &&& after_attribute_name(text).len() > 0
    &&& after_attribute_name(text)[0] == '('
    &&& closing_paren(after_attribute_name(text), 0, 0) is None
}

/// What is left starts with no annotation, unless with one whose parentheses do not close; so there
/// is nothing left to remove. It is the end of what there was.
pub proof fn law_no_attributes_are_left(text: Seq<char>)
    ensures
        ({
            let rest = without_attributes(text);
            &&& rest.len() > 0 && rest[0] == '@' ==> starts_unclosed(rest)
            &&& without_attributes(rest) == rest
            &&& rest.len() <= text.len()
            &&& rest == text.skip(text.len() - rest.len())
        }),
    decreases text.len(),
{
    if text.len() > 0 && text[0] == '@' {
        let end = attribute_name_end(text, 1);
        let after = after_attribute_name(text);
        lemma_attribute_name_end(text, 1);
        lemma_trimmed_start_is_the_end(text.skip(end));
        assert(after =~= text.skip(text.len() - after.len()));
        if after.len() > 0 && after[0] == '(' {
            lemma_closing_paren_range(after, 0, 0);
            if let Some(close) = closing_paren(after, 0, 0) {
                let rest = trimmed_start(after.skip(close + 1));
                lemma_trimmed_start_is_the_end(after.skip(close + 1));
                assert(rest =~= text.skip(text.len() - rest.len()));
                law_no_attributes_are_left(rest);
                assert(without_attributes(text) =~= text.skip(
                    text.len() - without_attributes(text).len(),
                ));
            } else {
                assert(text =~= text.skip(0));
            }
        } else {
            law_no_attributes_are_left(after);
            assert(without_attributes(text) =~= text.skip(
                text.len() - without_attributes(text).len(),
            ));
        }
    } else {
        assert(text =~= text.skip(0));
    }
}

/// A source that has no `vs_main`, or no `@vertex` in it, is left alone.
pub proof fn law_sources_without_an_entry_point_are_left_alone(source: Seq<char>)
    requires
        (forall|i: int| !word_at(source, "fn vs_main"@, i)) || !occurs_in(source, "@vertex"@),
    ensures
        remapped(source) is None,
{
    law_words_are_found_first(source, "fn vs_main"@, 0);
    if let Some(name) = first_word(source, "fn vs_main"@, 0) {
        lemma_last_occurrence(source.take(name), "@vertex"@, name);
        if let Some(attribute) = last_occurrence(source.take(name), "@vertex"@, name) {
            let end = attribute + "@vertex"@.len();
            assert(source.subrange(attribute, end) =~= source.take(name).subrange(attribute, end));
            assert(occurs_at(source, "@vertex"@, attribute));
        }
    }
}

/// A source that is wrapped keeps all that stands before its entry point and all that stands from
/// the entry point's body on; the wrapper ends it.
pub proof fn law_wrapped_sources_keep_their_code(source: Seq<char>)
    requires
        remapped(source) is Some,
    ensures
        ({
            let text = remapped(source)->0;
            let entry = entry_point(source)->0;
            let params = parameters(source, entry);
            let result = return_type(source, entry)->0;
            let remapping = remapping(source, result)->0;
            let declared = entry.attribute + renamed(params, remapping).len();
            &&& occurs_at(text, source.take(entry.attribute), 0)
            &&& occurs_at(text, renamed(params, remapping), entry.attribute)
            &&& occurs_at(text, source.skip(entry.body), declared)
            &&& occurs_at(
                text,
                wrapper(params, result, remapping),
                declared + source.len() - entry.body,
            )
            &&& text.len() == declared + source.len() - entry.body + wrapper(
                params,
                result,
                remapping,
            ).len()
        }),
{
    lemma_entry_point_lies_within(source);
    let entry = entry_point(source)->0;
    let params = parameters(source, entry);
    let result = return_type(source, entry)->0;
    let remapping = remapping(source, result)->0;
    let head = source.take(entry.attribute);
    let declaration = renamed(params, remapping);
    let tail = source.skip(entry.body);
    let wrapping = wrapper(params, result, remapping);
    let text = head + declaration + tail + wrapping;
    assert(text == remapped(source)->0);
    assert(text.subrange(0, head.len() as int) =~= head);
    let declared = head.len() + declaration.len();
    assert(text.subrange(head.len() as int, declared as int) =~= declaration);
    assert(text.subrange(declared as int, (declared + tail.len()) as int) =~= tail);
    assert(text.subrange((declared + tail.len()) as int, text.len() as int) =~= wrapping);
}

/// Where the `vs_main` of the wrapper of a wrapped source stands.
pub open spec fn wrapper_entry(source: Seq<char>) -> int {
    let entry = entry_point(source)->0;
    let params = parameters(source, entry);
    let result = return_type(source, entry)->0;
    let remapping = remapping(source, result)->0;
    entry.attribute + renamed(params, remapping).len() + source.len() - entry.body
        + "\n@vertex\n"@.len()
}

/// The wrapper takes the entry point's place: a wrapped source has a `vs_main`, marked `@vertex`,
/// in its wrapper, while the user's is gone: there is none up to the end of its new name.
pub proof fn law_the_wrapper_becomes_the_entry_point(source: Seq<char>, i: int)
    requires
        remapped(source) is Some,
    ensures
        ({
            let text = remapped(source)->0;
            let renamed_end = entry_point(source)->0.attribute + "fn fyrox_user_vs_main("@.len();
            &&& word_at(text, "fn vs_main"@, wrapper_entry(source))
            &&& occurs_at(text, "@vertex\n"@, wrapper_entry(source) - "@vertex\n"@.len())
            &&& i < renamed_end ==> !word_at(text, "fn vs_main"@, i)
            &&& renamed_end <= wrapper_entry(source)
        }),
{
    lemma_entry_point_lies_within(source);
    law_wrapped_sources_keep_their_code(source);
    law_words_are_found_first(source, "fn vs_main"@, 0);
    let text = remapped(source)->0;
    let entry = entry_point(source)->0;
    let params = parameters(source, entry);
    let result = return_type(source, entry)->0;
    let remapping = remapping(source, result)->0;
    let declaration = renamed(params, remapping);
    let wrapping = wrapper(params, result, remapping);
    let at = entry.attribute + declaration.len() + source.len() - entry.body;
    lemma_declarations_start(params, result, remapping);
    lemma_occurs_within(text, wrapping, at, "\n@vertex\nfn vs_main("@);
    lemma_occurs_within(text, declaration, entry.attribute, "fn fyrox_user_vs_main("@);
    lemma_marked_entry(text, at);
    lemma_entry_is_gone(source, text, entry.attribute, i);
    reveal_strlit("\n@vertex\n");
    reveal_strlit("@vertex\n");
}

/// What stands at the start of a part of a text stands where the part does.
proof fn lemma_occurs_within(text: Seq<char>, part: Seq<char>, at: int, start: Seq<char>)
    requires
        occurs_at(text, part, at),
        occurs_at(part, start, 0),
    ensures
        occurs_at(text, start, at),
{
    assert forall|k: int| 0 <= k < start.len() implies text[at + k] == start[k] by {
        assert(text.subrange(at, at + part.len())[k] == part[k]);
        assert(part.subrange(0, start.len() as int)[k] == start[k]);
    }
    assert(text.subrange(at, at + start.len()) =~= start);
}

/// How the renamed entry point and the wrapper start.
proof fn lemma_declarations_start(
    parameters: Seq<Seq<char>>,
    result: Seq<char>,
    remapping: Remapping,
)
    ensures
        occurs_at(renamed(parameters, remapping), "fn fyrox_user_vs_main("@, 0),
        occurs_at(wrapper(parameters, result, remapping), "\n@vertex\nfn vs_main("@, 0),
{
    let name = "fn fyrox_user_vs_main("@;
    assert(renamed(parameters, remapping).subrange(0, name.len() as int) =~= name);
    let opening = "\n@vertex\nfn vs_main("@;
    assert(wrapper(parameters, result, remapping).subrange(0, opening.len() as int) =~= opening);
}

/// The opening of a wrapper holds a `vs_main` that is marked `@vertex`.
proof fn lemma_marked_entry(text: Seq<char>, at: int)
    requires
        occurs_at(text, "\n@vertex\nfn vs_main("@, at),
    ensures
        word_at(text, "fn vs_main"@, at + 9),
        occurs_at(text, "@vertex\n"@, at + 1),
{
    reveal_strlit("fn vs_main");
    reveal_strlit("@vertex\n");
    reveal_strlit("\n@vertex\nfn vs_main(");
    let opening = "\n@vertex\nfn vs_main("@;
    assert forall|k: int| 0 <= k < opening.len() implies #[trigger] text[at + k] == opening[k] by {
        assert(text.subrange(at, at + opening.len())[k] == opening[k]);
    }
    assert forall|k: int| 0 <= k < 10 implies text[at + 9 + k] == "fn vs_main"@[k] by {
        assert(text[at + (9 + k)] == opening[9 + k]);
    }
    assert(text.subrange(at + 9, at + 19) =~= "fn vs_main"@);
    assert forall|k: int| 0 <= k < 8 implies text[at + 1 + k] == "@vertex\n"@[k] by {
        assert(text[at + (1 + k)] == opening[1 + k]);
    }
    assert(text.subrange(at + 1, at + 9) =~= "@vertex\n"@);
    assert(text[at + 8] == opening[8]);
    assert(text[at + 19] == opening[19]);
}

/// Where the text before the first `vs_main` is followed by the new name, there is no `vs_main`
/// any more up to the end of the new name.
proof fn lemma_entry_is_gone(source: Seq<char>, text: Seq<char>, attribute: int, i: int)
    requires
        0 <= attribute <= source.len(),
        occurs_at(text, source.take(attribute), 0),
        occurs_at(text, "fn fyrox_user_vs_main("@, attribute),
        forall|j: int| 0 <= j < attribute ==> !word_at(source, "fn vs_main"@, j),
    ensures
        i < attribute + "fn fyrox_user_vs_main("@.len() ==> !word_at(text, "fn vs_main"@, i),
{
    reveal_strlit("fn vs_main");
    reveal_strlit("fn fyrox_user_vs_main(");
    let needle = "fn vs_main"@;
    let name = "fn fyrox_user_vs_main("@;
    if i < attribute + name.len() && word_at(text, needle, i) {
        assert forall|k: int| 0 <= k < name.len() implies #[trigger] text[attribute + k]
            == name[k] by {
            assert(text.subrange(attribute, attribute + name.len())[k] == name[k]);
        }
        assert forall|k: int| 0 <= k < 10 implies #[trigger] text[i + k] == needle[k] by {
            assert(text.subrange(i, i + 10)[k] == needle[k]);
        }
        assert forall|k: int| 0 <= k < attribute implies #[trigger] text[k] == source[k] by {
            assert(text.subrange(0, attribute)[k] == source.take(attribute)[k]);
        }
        assert(text[attribute + 0] == name[0]);
        assert(text[i + 0] == needle[0]);
        if i + 10 < attribute {
            assert(source.subrange(i, i + 10) =~= needle);
            assert(word_at(source, needle, i));
        } else if i + 10 == attribute {
            assert(is_ident_char(text[attribute]));
        } else if i < attribute {
            let k = attribute - i;
            assert(text[i + k] == needle[k]);
            assert(needle[k] != 'f');
        } else {
            let k = i - attribute;
            assert(text[attribute + k] == name[k]);
            assert(k == 0 || k == 3);
            if k == 0 {
                assert(text[i + 3] == needle[3]);
                assert(text[attribute + 3] == name[3]);
            } else {
                assert(text[i + 1] == needle[1]);
                assert(text[attribute + 4] == name[4]);
            }
        }
    }
}

/// A closing `>` is one, and stands where it was looked for.
proof fn lemma_closing_angle(text: Seq<char>, depth: nat, from: int)
    ensures
        closing_angle(text, depth, from) matches Some(close) ==> from <= close < text.len()
            && text[close] == '>',
    decreases text.len() - from,
{
    if 0 <= from < text.len() {
        lemma_closing_angle(text, depth + 1, from + 1);
        lemma_closing_angle(text, depth, from + 1);
        if depth > 1 {
            lemma_closing_angle(text, (depth - 1) as nat, from + 1);
        }
        if let Some(close) = closing_paren(text, from, from) {
            if from < close < text.len() {
                lemma_closing_angle(text, depth, close + 1);
            }
        }
    }
}

/// What is left of trimmed text is its end.
proof fn lemma_trimmed_start_is_the_end(s: Seq<char>)
    ensures
        trimmed_start(s).len() <= s.len(),
        trimmed_start(s) == s.skip(s.len() - trimmed_start(s).len()),
    decreases s.len(),
{
    if s.len() > 0 && is_white_space(s[0]) {
        lemma_trimmed_start_is_the_end(s.skip(1));
        assert(trimmed_start(s) =~= s.skip(s.len() - trimmed_start(s).len()));
    } else {
        assert(s =~= s.skip(0));
    }
}

/// The parts of an entry point stand in the order in which they are written.
proof fn lemma_entry_point_lies_within(source: Seq<char>)
    ensures
        entry_point(source) matches Some(entry) ==> {
            &&& 0 <= entry.attribute <= entry.open < entry.close < entry.body < source.len()
            &&& occurs_at(source, "@vertex"@, entry.attribute)
            &&& first_word(source, "fn vs_main"@, 0) matches Some(name) && entry.attribute
                + "@vertex"@.len() <= name
        },
{
    law_words_are_found_first(source, "fn vs_main"@, 0);
    if let Some(name) = first_word(source, "fn vs_main"@, 0) {
        lemma_first_char(source, '(', name);
        lemma_last_occurrence(source.take(name), "@vertex"@, name);
        if let (Some(open), Some(attribute)) = (
            first_char(source, '(', name),
            last_occurrence(source.take(name), "@vertex"@, name),
        ) {
            let end = attribute + "@vertex"@.len();
            assert(source.subrange(attribute, end) =~= source.take(name).subrange(attribute, end));
            law_matching_parens_close_first(source, open, open);
            if let Some(close) = closing_paren(source, open, open) {
                lemma_first_char(source, '{', close);
            }
        }
    }
}

/// The depth that an expression gives, of a position whose `z` and `w` are known.
pub enum DepthExpression {
    Z,
    W,
    Sum(Box<DepthExpression>, Box<DepthExpression>),
    Half(Box<DepthExpression>),
}

impl DepthExpression {
    /// The expression as shaders write it, of the position under this name.
    pub open spec fn written(self, position: Seq<char>) -> Seq<char>
        decreases self,
    {
        match self {
            DepthExpression::Z => position + ".z"@,
            DepthExpression::W => position + ".w"@,
            DepthExpression::Sum(a, b) => "("@ + a.written(position) + " + "@ + b.written(position)
                + ")"@,
            DepthExpression::Half(a) => a.written(position) + " * 0.5"@,
        }
    }

    /// The value of the expression, as a numerator and a denominator.
    pub open spec fn value(self, z: int, w: int) -> (int, int)
        decreases self,
    {
        match self {
            DepthExpression::Z => (z, 1),
            DepthExpression::W => (w, 1),
            DepthExpression::Sum(a, b) => (
                a.value(z, w).0 * b.value(z, w).1 + b.value(z, w).0 * a.value(z, w).1,
                a.value(z, w).1 * b.value(z, w).1,
            ),
            DepthExpression::Half(a) => (a.value(z, w).0, 2 * a.value(z, w).1),
        }
    }
}

/// The statement that assigns an expression to the `z` of a position.
pub open spec fn depth_assignment(position: Seq<char>, depth: DepthExpression) -> Seq<char> {
    "    "@ + position + ".z = "@ + depth.written(position) + ";\n"@
}

/// Half the sum of `z` and `w`.
pub open spec fn half_sum() -> DepthExpression {
    DepthExpression::Half(
        Box::new(
            DepthExpression::Sum(Box::new(DepthExpression::Z), Box::new(DepthExpression::W)),
        ),
    )
}

/// What a wrapper calls the position in what the renamed entry point returns: the result itself, where
/// it carries `@builtin(position)`, else the member of it that does.
pub open spec fn is_position_of(position: Seq<char>, source: Seq<char>, result: Seq<char>) -> bool {
    if occurs_in(result, "@builtin(position)"@) {
        position == "out"@
    } else {
        position_member(source, result) matches Some(member) && position == "out."@ + member
    }
}

/// A wrapper remaps depth once: its one statement assigns to the `z` of the position, and to nothing
/// else, half the sum of the `z` and the `w` that the user's code returned. So what lay between `-w`
/// and `w` lies between zero and `w`.
pub proof fn law_depth_is_remapped_once(
    source: Seq<char>,
    result: Seq<char>,
    position: Seq<char>,
    z: int,
    w: int,
)
    requires
        is_position_of(position, source, result),
    ensures
        remapping(source, result) matches Some(remapping) && remapping.statement
            == depth_assignment(position, half_sum()),
        ({
            let (numerator, denominator) = half_sum().value(z, w);
            &&& denominator > 0
            &&& 2 * numerator == (z + w) * denominator
            &&& z == -w ==> numerator == 0
            &&& z == w ==> numerator == w * denominator
        }),
{
    reveal_with_fuel(DepthExpression::written, 3);
    reveal_with_fuel(DepthExpression::value, 3);
    let z_text = position + ".z"@;
    let w_text = position + ".w"@;
    let sum = "("@ + z_text + " + "@ + w_text + ")"@;
    assert(half_sum().written(position) == sum + " * 0.5"@);
    assert(half_sum().value(z, w) == (z * 1 + w * 1, 2 * (1 * 1int)));
    let expected = "    "@ + position + ".z = "@ + (sum + " * 0.5"@) + ";\n"@;
    reveal_strlit(".z");
    reveal_strlit(".w");
    reveal_strlit("(");
    reveal_strlit(" + ");
    reveal_strlit(")");
    reveal_strlit(" * 0.5");
    reveal_strlit("    ");
    reveal_strlit(".z = ");
    reveal_strlit(";\n");
    if occurs_in(result, "@builtin(position)"@) {
        reveal_strlit("out");
        reveal_strlit("    out.z = (out.z + out.w) * 0.5;\n");
        assert("    out.z = (out.z + out.w) * 0.5;\n"@ =~= expected);
    } else {
        let field = position_member(source, result)->0;
        lemma_statement_is_assignment(field);
    }
}

/// How the statement for a member is put together.
proof fn lemma_statement_is_assignment(field: Seq<char>)
    ensures
        "    out."@ + field + ".z = (out."@ + field + ".z + out."@ + field + ".w) * 0.5;\n"@ == "    "@
            + ("out."@ + field) + ".z = "@ + ("("@ + ("out."@ + field + ".z"@) + " + "@ + ("out."@
            + field + ".w"@) + ")"@ + " * 0.5"@) + ";\n"@,
{
    reveal_strlit("    out.");
    reveal_strlit("    ");
    reveal_strlit("out.");
    reveal_strlit(".z = (out.");
    reveal_strlit(".z = ");
    reveal_strlit("(");
    reveal_strlit(".z + out.");
    reveal_strlit(".z");
    reveal_strlit(" + ");
    reveal_strlit(".w) * 0.5;\n");
    reveal_strlit(".w");
    reveal_strlit(")");
    reveal_strlit(" * 0.5");
    reveal_strlit(";\n");
    let o = "out."@;
    assert("    out."@ =~= "    "@ + o);
    assert(".z = (out."@ =~= ".z = "@ + "("@ + o);
    assert(".z + out."@ =~= ".z"@ + " + "@ + o);
    assert(".w) * 0.5;\n"@ =~= ".w"@ + ")"@ + " * 0.5"@ + ";\n"@);
    let left = "    "@ + o + field + (".z = "@ + "("@ + o) + field + (".z"@ + " + "@ + o) + field + (
    ".w"@ + ")"@ + " * 0.5"@ + ";\n"@);
    let right = "    "@ + (o + field) + ".z = "@ + ("("@ + (o + field + ".z"@) + " + "@ + (o + field
        + ".w"@) + ")"@ + " * 0.5"@) + ";\n"@;
    assert(left =~= right);
}

/// A wrapped source, written out: what stood before the entry point; the entry point under its new
/// name, with its parameters but without their attributes; its body and all that followed; then an
/// entry point with the old name, the old parameters and the old result, which calls the renamed one
/// with the names of the parameters, remaps the depth once, and returns. It is wrapped just if its
/// entry point, its result and the position in it were understood and every parameter has a name.
pub proof fn law_wrapped_sources_are_written_out(
    source: Seq<char>,
    entry: EntryPoint,
    result: Seq<char>,
    position: Seq<char>,
    bare: Seq<Seq<char>>,
    names: Seq<Seq<char>>,
)
    requires
        entry_point(source) == Some(entry),
        return_type(source, entry) == Some(result),
        is_position_of(position, source, result),
        bare.len() == parameters(source, entry).len(),
        names.len() == parameters(source, entry).len(),
        forall|k: int|
            0 <= k < bare.len() ==> #[trigger] bare[k] == without_attributes(
                trimmed(parameters(source, entry)[k]),
            ),
        forall|k: int|
            0 <= k < names.len() ==> #[trigger] names[k] == declared_name(
                parameters(source, entry)[k],
            ),
    ensures
        remapped(source) is None <==> exists|k: int|
            0 <= k < names.len() && (#[trigger] names[k]).len() == 0,
        remapped(source) matches Some(text) ==> {
            let params = parameters(source, entry);
            let inner = if occurs_in(result, "@builtin(position)"@) {
                without_attributes(trimmed(result))
            } else {
                result
            };
            text == source.take(entry.attribute) + ("fn fyrox_user_vs_main("@ + joined(bare, ", "@)
                + ") -> "@ + inner) + source.skip(entry.body) + ("\n@vertex\nfn vs_main("@ + joined(
                params,
                ", "@,
            ) + ") -> "@ + result + " {\n    var out = fyrox_user_vs_main("@ + joined(names, ", "@)
                + ");\n"@ + depth_assignment(position, half_sum()) + "    return out;\n}\n"@)
        },
{
    let params = parameters(source, entry);
    law_depth_is_remapped_once(source, result, position, 0, 0);
    assert(bare =~= bare_parameters(params));
    assert(names =~= arguments(params));
    if all_named(params) {
        assert forall|k: int| 0 <= k < names.len() implies (#[trigger] names[k]).len() != 0 by {
            assert(declared_name(params[k]).len() > 0);
        }
    } else {
        let k = choose|k: int|
            0 <= k < params.len() && !(declared_name(#[trigger] params[k]).len() > 0);
        assert(names[k].len() == 0);
    }
}

/// A source is left alone where its entry point, what that returns, or the position in it is not
/// understood.
pub proof fn law_sources_that_are_not_understood_are_left_alone(source: Seq<char>)
    requires
        match entry_point(source) {
            Some(entry) => match return_type(source, entry) {
                Some(result) => !occurs_in(result, "@builtin(position)"@) && position_member(
                    source,
                    result,
                ) is None,
                None => true,
            },
            None => true,
        },
    ensures
        remapped(source) is None,
{
}

/// The letters A to Z and a to z, the digits 0 to 9 and the underscore, by their code points, make up
/// identifiers; attributes have those of them that are letters and digits of ASCII too.
pub proof fn law_identifiers_are_made_of(c: char)
    ensures
        ({
            let p = c as u32;
            let letter_or_digit = 48 <= p <= 57 || 65 <= p <= 90 || 97 <= p <= 122;
            &&& is_ident_char(c) <==> letter_or_digit || p == 95
            &&& p < 128 ==> (is_attribute_char(c) <==> letter_or_digit || p == 95)
            &&& p >= 128 ==> is_attribute_char(c) == is_unicode_alphanumeric(c)
        }),
{
}

/// A word stands where its letters do, with no letter, digit or underscore right before or after.
pub proof fn law_words_stand_alone(
    head: Seq<char>,
    needle: Seq<char>,
    tail: Seq<char>,
)
    ensures
        word_at(head + needle + tail, needle, head.len() as int) <==> (head.len() == 0
            || !is_ident_char(head.last())) && (tail.len() == 0 || !is_ident_char(tail[0])),
{
    let s = head + needle + tail;
    assert(s.subrange(head.len() as int, (head.len() + needle.len()) as int) =~= needle);
}

/// Parentheses are counted one by one: an opening one counts one, a closing one takes one away, and
/// nothing else counts.
pub proof fn law_parentheses_are_counted(s: Seq<char>, open: int, middle: int, end: int)
    requires
        0 <= open <= middle <= end <= s.len(),
    ensures
        balance(s, open, middle) + balance(s, middle, end) == balance(s, open, end),
        middle < s.len() ==> balance(s, middle, middle + 1) == if s[middle] == '(' {
            1int
        } else if s[middle] == ')' {
            -1
        } else {
            0
        },
    decreases end - middle,
{
    if middle < end {
        law_parentheses_are_counted(s, open, middle, end - 1);
    }
    if middle < s.len() {
        assert(balance(s, middle, middle) == 0);
    }
}

/// Where no more parentheses were closed than opened, as many are open as were opened and not closed;
/// one that closes nothing leaves none open.
pub proof fn law_open_parentheses_are_counted(text: Seq<char>, end: int)
    requires
        0 <= end <= text.len(),
    ensures
        (forall|j: int| 0 <= j <= end ==> #[trigger] balance(text, 0, j) >= 0) ==> open_parens(
            text,
            end,
        ) == balance(text, 0, end),
        open_parens(text, end) >= balance(text, 0, end),
        end < text.len() && text[end] == ')' && open_parens(text, end) == 0 ==> open_parens(
            text,
            end + 1,
        ) == 0,
    decreases end,
{
    if end > 0 {
        law_open_parentheses_are_counted(text, end - 1);
        assert((forall|j: int| 0 <= j <= end ==> #[trigger] balance(text, 0, j) >= 0) ==> balance(
            text,
            0,
            end,
        ) >= 0);
    }
}

/// How many more `<` than `>` there are in the text from `from` up to `end`.
pub open spec fn angle_balance(text: Seq<char>, from: int, end: int) -> int
    decreases end - from,
{
    if end <= from {
        0
    } else {
        angle_balance(text, from, end - 1) + if text[end - 1] == '<' {
            1int
        } else if text[end - 1] == '>' {
            -1
        } else {
            0
        }
    }
}

/// Text without parentheses from `from` up to `end`.
pub open spec fn has_no_parens(text: Seq<char>, from: int, end: int) -> bool {
    forall|j: int| from <= j < end ==> text[j] != '(' && text[j] != ')'
}

/// Where no parentheses stand between, a `<` is closed by the first `>` up to which as many were
/// closed as opened, and by none if there is no such.
pub proof fn law_angles_close_first(text: Seq<char>, depth: nat, from: int)
    requires
        0 <= from <= text.len(),
        depth >= 1,
    ensures
        match closing_angle(text, depth, from) {
            Some(close) => has_no_parens(text, from, close) ==> {
                &&& from <= close < text.len()
                &&& text[close] == '>'
                &&& depth + angle_balance(text, from, close + 1) == 0
                &&& forall|j: int|
                    from <= j <= close ==> depth + #[trigger] angle_balance(text, from, j) >= 1
            },
            None => has_no_parens(text, from, text.len() as int) ==> forall|j: int|
                from <= j <= text.len() ==> depth + #[trigger] angle_balance(text, from, j) >= 1,
        },
    decreases text.len() - from,
{
    lemma_closing_angle(text, depth, from);
    if from < text.len() && text[from] != '(' && text[from] != ')' && !(text[from] == '>' && depth
        == 1) {
        let inner: nat = if text[from] == '<' {
            depth + 1
        } else if text[from] == '>' {
            (depth - 1) as nat
        } else {
            depth
        };
        law_angles_close_first(text, inner, from + 1);
        assert forall|j: int| from + 1 <= j <= text.len() implies depth + #[trigger] angle_balance(
            text,
            from,
            j,
        ) == inner + angle_balance(text, from + 1, j) by {
            lemma_angles_add(text, from, j);
        }
        if let Some(close) = closing_angle(text, depth, from) {
            if has_no_parens(text, from, close) {
                lemma_closing_angle(text, inner, from + 1);
                assert(has_no_parens(text, from + 1, close));
                assert forall|j: int| from <= j <= close implies depth + #[trigger] angle_balance(
                    text,
                    from,
                    j,
                ) >= 1 by {
                    if j > from {
                        assert(inner + angle_balance(text, from + 1, j) >= 1);
                    }
                }
            }
        } else if has_no_parens(text, from, text.len() as int) {
            assert(has_no_parens(text, from + 1, text.len() as int));
            assert forall|j: int| from <= j <= text.len() implies depth + #[trigger] angle_balance(
                text,
                from,
                j,
            ) >= 1 by {
                if j > from {
                    assert(inner + angle_balance(text, from + 1, j) >= 1);
                }
            }
        }
    } else if from < text.len() && text[from] == '>' {
        assert(angle_balance(text, from, from) == 0);
    } else if from < text.len() {
        if let Some(close) = closing_angle(text, depth, from) {
            assert(close > from ==> !has_no_parens(text, from, close));
        } else {
            assert(!has_no_parens(text, from, text.len() as int));
        }
    }
}

proof fn lemma_angles_add(text: Seq<char>, from: int, end: int)
    requires
        from < end,
    ensures
        angle_balance(text, from, end) == angle_balance(text, from, from + 1) + angle_balance(
            text,
            from + 1,
            end,
        ),
        angle_balance(text, from, from + 1) == if text[from] == '<' {
            1int
        } else if text[from] == '>' {
            -1
        } else {
            0
        },
    decreases end - from,
{
    assert(angle_balance(text, from, from) == 0);
    if end > from + 1 {
        lemma_angles_add(text, from, end - 1);
    }
}

/// Parentheses and what is in them make no difference to what closes a `<` before them; parentheses
/// that it stands in do: it is not closed beyond their end. One that closes nothing is passed over.
pub proof fn law_angles_close_at_their_own_level(text: Seq<char>, depth: nat, from: int, close: int)
    requires
        0 <= from < text.len(),
    ensures
        text[from] == '(' && closing_paren(text, from, from) == Some(close) ==> closing_angle(
            text,
            depth,
            from,
        ) == closing_angle(text, depth, close + 1),
        text[from] == '(' && closing_paren(text, from, from) is None ==> closing_angle(
            text,
            depth,
            from,
        ) == closing_angle(text, depth, from + 1),
        text[from] == ')' && open_parens(text, from) > 0 ==> closing_angle(text, depth, from)
            is None,
        text[from] == ')' && open_parens(text, from) == 0 ==> closing_angle(text, depth, from)
            == closing_angle(text, depth, from + 1),
{
    law_matching_parens_close_first(text, from, from);
}

/// A bracket is closed by the one that belongs to it; nothing but `(` and `<` opens.
pub proof fn law_brackets_have_their_closers(text: Seq<char>, i: int)
    requires
        0 <= i < text.len(),
    ensures
        text[i] == '(' ==> closer(text, i) == closing_paren(text, i, i),
        text[i] == '<' ==> closer(text, i) == closing_angle(text, 1, i + 1),
        text[i] != '(' && text[i] != '<' ==> closer(text, i) is None,
        text[i] == ',' && !separates(text, i) ==> exists|open: int|
            0 <= open < i && (#[trigger] closer(text, open) matches Some(close) && i < close),
{
    if text[i] == ',' && !separates(text, i) {
        let open = choose|open: int| encloses(text, open, i);
        assert(closer(text, open) matches Some(close) && i < close);
    }
}

/// Where part `k` starts in the text that was split.
pub open spec fn part_start(parts: Seq<Seq<char>>, k: int) -> nat
    decreases k,
{
    if k <= 0 {
        0
    } else {
        part_start(parts, k - 1) + parts[k - 1].len() + 1
    }
}

/// Text is cut at every separating comma and nowhere else: each part but the first starts right after
/// one, and right after each of them a part starts.
pub proof fn law_parts_start_after_separators(text: Seq<char>, end: int)
    requires
        0 <= end <= text.len(),
    ensures
        ({
            let parts = top_level_parts(text, end);
            &&& parts.len() > 0
            &&& part_start(parts, parts.len() - 1) + parts.last().len() == end
            &&& forall|k: int|
                0 < k < parts.len() ==> separates(text, #[trigger] part_start(parts, k) - 1)
            &&& forall|i: int|
                0 <= i < end && #[trigger] separates(text, i) ==> exists|k: int|
                    0 < k < parts.len() && #[trigger] part_start(parts, k) == i + 1
        }),
    decreases end,
{
    if end > 0 {
        law_parts_start_after_separators(text, end - 1);
        let before = top_level_parts(text, end - 1);
        let parts = top_level_parts(text, end);
        assert forall|k: int| 0 <= k < before.len() implies #[trigger] part_start(parts, k)
            == part_start(before, k) by {
            lemma_part_start_is_kept(before, parts, k);
        }
        if separates(text, end - 1) {
            assert(part_start(parts, before.len() - 1) == part_start(before, before.len() - 1));
            assert(part_start(parts, before.len() as int) == part_start(before, before.len() - 1)
                + before.last().len() + 1);
        }
        assert forall|k: int| 0 < k < parts.len() implies separates(
            text,
            #[trigger] part_start(parts, k) - 1,
        ) by {
            if k < before.len() {
                assert(part_start(parts, k) == part_start(before, k));
            }
        }
        assert forall|i: int| 0 <= i < end && #[trigger] separates(text, i) implies exists|k: int|
            0 < k < parts.len() && #[trigger] part_start(parts, k) == i + 1 by {
            if i < end - 1 {
                let k = choose|k: int|
                    0 < k < before.len() && #[trigger] part_start(before, k) == i + 1;
                assert(part_start(parts, k) == i + 1);
            } else {
                assert(part_start(parts, before.len() as int) == i + 1);
            }
        }
    }
}

proof fn lemma_part_start_is_kept(before: Seq<Seq<char>>, parts: Seq<Seq<char>>, k: int)
    requires
        0 <= k < before.len(),
        before.len() <= parts.len(),
        forall|j: int| 0 <= j < before.len() - 1 ==> #[trigger] parts[j] == before[j],
    ensures
        part_start(parts, k) == part_start(before, k),
    decreases k,
{
    if k > 0 {
        lemma_part_start_is_kept(before, parts, k - 1);
    }
}

/// Parts that hold more than white space are kept, in order, and no others.
pub proof fn law_blank_parts_are_dropped(parts: Seq<Seq<char>>, part: Seq<char>)
    ensures
        nonblank(Seq::empty()) == Seq::<Seq<char>>::empty(),
        is_blank(part) ==> nonblank(parts.push(part)) == nonblank(parts),
        part.len() > 0 && !is_white_space(part[0]) ==> nonblank(parts.push(part)) == nonblank(
            parts,
        ).push(part),
        !is_blank(part) ==> nonblank(parts.push(part)) == nonblank(parts).push(part),
{
    let all = parts.push(part);
    assert(all.drop_last() =~= parts);
    assert(all.last() == part);
    if is_blank(part) {
        law_trimming_takes_the_blanks_away(part, Seq::empty(), Seq::empty());
        assert(part + Seq::<char>::empty() + Seq::<char>::empty() =~= part);
    } else {
        let i = choose|i: int| 0 <= i < part.len() && !is_white_space(#[trigger] part[i]);
        lemma_trimmed_keeps(part, i);
    }
}

/// Text with something else than white space in it is not trimmed away.
proof fn lemma_trimmed_keeps(s: Seq<char>, i: int)
    requires
        0 <= i < s.len(),
        !is_white_space(s[i]),
    ensures
        trimmed(s).len() > 0,
    decreases s.len(),
{
    if is_white_space(s[0]) {
        assert(s.skip(1)[i - 1] == s[i]);
        lemma_trimmed_keeps(s.skip(1), i - 1);
    } else {
        lemma_trimmed_end_keeps(s, i);
    }
}

/// What stands up to something else than white space is not trimmed at the end.
proof fn lemma_trimmed_end_keeps(s: Seq<char>, i: int)
    requires
        0 <= i < s.len(),
        !is_white_space(s[i]),
    ensures
        i < trimmed_end(s).len() <= s.len(),
        trimmed_end(s) == s.take(trimmed_end(s).len() as int),
    decreases s.len(),
{
    if is_white_space(s.last()) {
        assert(s.drop_last()[i] == s[i]);
        lemma_trimmed_end_keeps(s.drop_last(), i);
        let kept = trimmed_end(s.drop_last());
        assert(s.drop_last().take(kept.len() as int) =~= s.take(kept.len() as int));
    } else {
        assert(s =~= s.take(s.len() as int));
    }
}

/// All characters are such as attributes are named with.
pub open spec fn is_attribute_name(name: Seq<char>) -> bool {
    forall|i: int| 0 <= i < name.len() ==> is_attribute_char(#[trigger] name[i])
}

/// Text that starts with no annotation is left as it is.
pub proof fn law_text_without_attributes_is_kept(text: Seq<char>)
    requires
        text.len() == 0 || text[0] != '@',
    ensures
        without_attributes(text) == text,
{
}

/// An annotation without arguments is removed, with the white space behind it, and what follows is
/// looked at in the same way.
pub proof fn law_plain_attributes_are_removed(name: Seq<char>, gap: Seq<char>, rest: Seq<char>)
    requires
        is_attribute_name(name),
        is_blank(gap),
        (gap + rest).len() > 0 ==> !is_attribute_char((gap + rest)[0]),
        rest.len() > 0 ==> !is_white_space(rest[0]) && rest[0] != '(',
    ensures
        without_attributes(seq!['@'] + name + gap + rest) == without_attributes(rest),
{
    let text = seq!['@'] + name + gap + rest;
    lemma_name_ends(text, 1, 1 + name.len() as int);
    assert(text.skip(1 + name.len() as int) =~= gap + rest);
    lemma_blank_start(gap, rest);
    assert(after_attribute_name(text) == rest);
}

/// An annotation with arguments is removed, up to the parenthesis that closes them and with the white
/// space behind it, and what follows is looked at in the same way.
pub proof fn law_attributes_with_arguments_are_removed(
    name: Seq<char>,
    gap: Seq<char>,
    arguments: Seq<char>,
    space: Seq<char>,
    rest: Seq<char>,
)
    requires
        is_attribute_name(name),
        is_blank(gap),
        is_blank(space),
        arguments.len() > 0,
        arguments[0] == '(',
        closing_paren(arguments, 0, 0) == Some(arguments.len() - 1),
        !is_attribute_char((gap + arguments)[0]),
        rest.len() > 0 ==> !is_white_space(rest[0]),
    ensures
        without_attributes(seq!['@'] + name + gap + arguments + space + rest) == without_attributes(
            rest,
        ),
{
    let text = seq!['@'] + name + gap + arguments + space + rest;
    let after = arguments + (space + rest);
    assert((gap + arguments)[0] == (gap + after)[0]);
    assert(text.skip(1 + name.len() as int) =~= gap + after);
    assert(text[1 + name.len() as int] == (gap + after)[0]);
    lemma_name_ends(text, 1, 1 + name.len() as int);
    lemma_blank_start(gap, after);
    assert(trimmed_start(after) == after);
    assert(after_attribute_name(text) == after);
    lemma_closing_paren_of_start(arguments, space + rest, 0);
    assert(after.skip(arguments.len() as int) =~= space + rest);
    lemma_blank_start(space, rest);
    assert(trimmed_start(rest) == rest);
    lemma_attribute_name_end(text, 1);
}

proof fn lemma_name_ends(text: Seq<char>, from: int, end: int)
    requires
        0 <= from <= end <= text.len(),
        forall|i: int| from <= i < end ==> is_attribute_char(#[trigger] text[i]),
        end < text.len() ==> !is_attribute_char(text[end]),
    ensures
        attribute_name_end(text, from) == end,
    decreases end - from,
{
    if from < end {
        lemma_name_ends(text, from + 1, end);
    }
}

proof fn lemma_balance_of_start(s: Seq<char>, more: Seq<char>, end: int)
    requires
        0 <= end <= s.len(),
    ensures
        balance(s + more, 0, end) == balance(s, 0, end),
    decreases end,
{
    if end > 0 {
        lemma_balance_of_start(s, more, end - 1);
        assert((s + more)[end - 1] == s[end - 1]);
    }
}

/// What closes a parenthesis does not depend on what follows.
proof fn lemma_closing_paren_of_start(s: Seq<char>, more: Seq<char>, from: int)
    requires
        0 <= from,
        closing_paren(s, 0, from) is Some,
    ensures
        closing_paren(s + more, 0, from) == closing_paren(s, 0, from),
    decreases s.len() - from,
{
    lemma_balance_of_start(s, more, from + 1);
    assert((s + more)[from] == s[from]);
    if !(s[from] == ')' && balance(s, 0, from + 1) == 0) {
        lemma_closing_paren_of_start(s, more, from + 1);
    }
}

/// The name that a declaration gives is what stands before its colon, without the white space round
/// it, whatever stands behind the colon.
pub proof fn law_declarations_give_their_names(
    lead: Seq<char>,
    name: Seq<char>,
    gap: Seq<char>,
    kind: Seq<char>,
)
    requires
        is_blank(lead),
        is_blank(gap),
        name.len() > 0,
        !name.contains(':'),
        name[0] != '@',
        !is_white_space(name[0]),
        !is_white_space(name.last()),
    ensures
        declared_name(lead + name + gap + seq![':'] + kind) == name,
{
    let rest = name + gap + seq![':'] + kind;
    let whole = lead + name + gap + seq![':'] + kind;
    assert(whole =~= lead + rest);
    lemma_blank_start(lead, rest);
    assert(trimmed_start(rest) == rest);
    let colon = (name + gap).len() as int;
    assert(rest[colon] == ':');
    lemma_trimmed_end_keeps(rest, colon);
    let kept = trimmed_end(rest);
    assert(kept == trimmed(whole));
    assert(kept[0] == name[0]);
    assert(without_attributes(kept) == kept);
    let tail = kept.skip(colon + 1);
    assert(kept =~= (name + gap) + seq![':'] + tail);
    assert(!(name + gap).contains(':')) by {
        if (name + gap).contains(':') {
            let i = choose|i: int| 0 <= i < (name + gap).len() && (name + gap)[i] == ':';
            if i < name.len() {
                assert(name[i] == ':');
                assert(name.contains(':'));
            } else {
                assert(is_white_space(gap[i - name.len()]));
            }
        }
    }
    law_text_before_a_character(name + gap, ':', tail);
    law_trimming_takes_the_blanks_away(Seq::empty(), name, gap);
    assert(Seq::<char>::empty() + name + gap =~= name + gap);
}

/// A declaration gives the same name with an annotation in front of it.
pub proof fn law_attributes_are_no_part_of_names(
    lead: Seq<char>,
    attribute: Seq<char>,
    declaration: Seq<char>,
)
    requires
        is_blank(lead),
        attribute.len() > 0 && attribute[0] == '@',
        declaration.len() > 0,
        !is_white_space(declaration[0]),
        !is_white_space(declaration.last()),
        without_attributes(attribute + declaration) == without_attributes(declaration),
    ensures
        declared_name(lead + attribute + declaration) == declared_name(declaration),
{
    let text = attribute + declaration;
    assert(text.last() == declaration.last());
    law_trimming_takes_the_blanks_away(lead, text, Seq::empty());
    assert(lead + text + Seq::<char>::empty() =~= lead + attribute + declaration);
    law_trimming_takes_the_blanks_away(Seq::empty(), declaration, Seq::empty());
    assert(Seq::<char>::empty() + declaration + Seq::<char>::empty() =~= declaration);
}

/// The position of a struct is declared between its first `{` and the first `}` after that, behind the
/// first `@builtin(position)` there.
pub proof fn law_positions_are_declared_in_their_struct(
    source: Seq<char>,
    structure: Seq<char>,
    declaration: int,
    open: int,
    marker: int,
    close: int,
)
    requires
        0 <= declaration <= open < marker,
        marker + "@builtin(position)"@.len() <= close < source.len(),
        word_at(source, "struct "@ + structure, declaration),
        forall|j: int|
            0 <= j < declaration ==> !#[trigger] word_at(source, "struct "@ + structure, j),
        source[open] == '{',
        forall|j: int| declaration <= j < open ==> source[j] != '{',
        source[close] == '}',
        forall|j: int| open <= j < close ==> source[j] != '}',
        occurs_at(source, "@builtin(position)"@, marker),
        forall|j: int| open < j < marker ==> !#[trigger] occurs_at(source, "@builtin(position)"@, j),
    ensures
        position_member(source, structure) == Some(declared_name(source.subrange(marker, close))),
{
    let needle = "struct "@ + structure;
    law_words_are_found_first(source, needle, 0);
    assert(first_word(source, needle, 0) == Some(declaration));
    lemma_first_char(source, '{', declaration);
    assert(first_char(source, '{', declaration) == Some(open));
    lemma_first_char(source, '}', open);
    assert(first_char(source, '}', open) == Some(close));
    let members = source.subrange(open + 1, close);
    let mark = "@builtin(position)"@;
    let at = marker - open - 1;
    lemma_first_occurrence(members, mark, 0);
    assert(members.subrange(at, at + mark.len()) =~= source.subrange(marker, marker + mark.len()));
    assert(occurs_at(members, mark, at));
    assert forall|j: int| 0 <= j < at implies !occurs_at(members, mark, j) by {
        if occurs_at(members, mark, j) {
            let k = open + 1 + j;
            assert(members.subrange(j, j + mark.len()) =~= source.subrange(k, k + mark.len()));
            assert(occurs_at(source, mark, k));
        }
    }
    assert(first_occurrence(members, mark, 0) == Some(at));
    assert(members.skip(at) =~= source.subrange(marker, close));
}

/// Without the struct, or without `@builtin(position)` anywhere, there is no position.
pub proof fn law_there_is_no_position_without_its_struct(source: Seq<char>, structure: Seq<char>)
    requires
        (forall|j: int| !#[trigger] word_at(source, "struct "@ + structure, j)) || !occurs_in(
            source,
            "@builtin(position)"@,
        ),
    ensures
        position_member(source, structure) is None,
{
    let needle = "struct "@ + structure;
    let mark = "@builtin(position)"@;
    law_words_are_found_first(source, needle, 0);
    if let Some(declaration) = first_word(source, needle, 0) {
        lemma_first_char(source, '{', declaration);
        if let Some(open) = first_char(source, '{', declaration) {
            lemma_first_char(source, '}', open);
            if let Some(close) = first_char(source, '}', open) {
                let members = source.subrange(open + 1, close);
                lemma_first_occurrence(members, mark, 0);
                if let Some(at) = first_occurrence(members, mark, 0) {
                    let k = open + 1 + at;
                    assert(members.subrange(at, at + mark.len()) =~= source.subrange(
                        k,
                        k + mark.len(),
                    ));
                    assert(occurs_at(source, mark, k));
                }
            }
        }
    }
}

/// The entry point is the first `fn vs_main`, if nothing but white space stands between it and an
/// `@vertex` before it: its parameters stand in the parentheses that open next, and its body starts at
/// the first `{` behind them.
pub proof fn law_entry_points_are_found(
    source: Seq<char>,
    attribute: int,
    name: int,
    open: int,
    close: int,
    body: int,
)
    requires
        0 <= attribute,
        attribute + "@vertex"@.len() <= name <= open,
        occurs_at(source, "@vertex"@, attribute),
        is_blank(source.subrange(attribute + "@vertex"@.len(), name)),
        word_at(source, "fn vs_main"@, name),
        forall|j: int| 0 <= j < name ==> !#[trigger] word_at(source, "fn vs_main"@, j),
        open < source.len() && source[open] == '(',
        forall|j: int| name <= j < open ==> source[j] != '(',
        closing_paren(source, open, open) == Some(close),
        close <= body < source.len() && source[body] == '{',
        forall|j: int| close <= j < body ==> source[j] != '{',
    ensures
        entry_point(source) == Some(EntryPoint { attribute, open, close, body }),
{
    let mark = "@vertex"@;
    reveal_strlit("@vertex");
    law_words_are_found_first(source, "fn vs_main"@, 0);
    assert(first_word(source, "fn vs_main"@, 0) == Some(name));
    lemma_first_char(source, '(', name);
    assert(first_char(source, '(', name) == Some(open));
    law_matching_parens_close_first(source, open, open);
    lemma_first_char(source, '{', close);
    assert(first_char(source, '{', close) == Some(body));
    let head = source.take(name);
    lemma_last_occurrence(head, mark, name);
    let end = attribute + mark.len();
    assert(head.subrange(attribute, end) =~= source.subrange(attribute, end));
    assert(occurs_at(head, mark, attribute));
    let found = last_occurrence(head, mark, name)->0;
    if found > attribute {
        assert(head.subrange(found, found + mark.len())[0] == mark[0]);
        assert(source[found] == '@');
        if found < end {
            assert(source.subrange(attribute, end)[found - attribute] == mark[found - attribute]);
        } else {
            assert(is_white_space(source.subrange(end, name)[found - end]));
        }
        assert(false);
    }
    let gap = source.subrange(end, name);
    law_trimming_takes_the_blanks_away(gap, Seq::empty(), Seq::empty());
    assert(gap + Seq::<char>::empty() + Seq::<char>::empty() =~= gap);
}

/// The parameters of an entry point are what the separating commas make of what stands in its
/// parentheses. What it returns stands between an arrow and its body, without the white space round
/// it; without an arrow nothing is returned.
pub proof fn law_entry_points_return_what_follows_the_arrow(
    source: Seq<char>,
    entry: EntryPoint,
    lead: Seq<char>,
    gap: Seq<char>,
    result: Seq<char>,
    trail: Seq<char>,
)
    requires
        is_blank(lead) && is_blank(gap) && is_blank(trail),
        result.len() > 0 ==> !is_white_space(result[0]) && !is_white_space(result.last()),
    ensures
        source.subrange(entry.close + 1, entry.body) == lead + seq!['-', '>'] + gap + result + trail
            ==> return_type(source, entry) == Some(result),
        source.subrange(entry.close + 1, entry.body) == lead + result + trail && (result.len() < 2
            || result[0] != '-' || result[1] != '>') ==> return_type(source, entry) is None,
        parameters(source, entry) == nonblank(
            top_level_parts(
                source.subrange(entry.open + 1, entry.close),
                source.subrange(entry.open + 1, entry.close).len() as int,
            ),
        ),
{
    reveal_strlit("->");
    assert("->"@ =~= seq!['-', '>']);
    let between = source.subrange(entry.close + 1, entry.body);
    if between == lead + seq!['-', '>'] + gap + result + trail {
        let arrow = seq!['-', '>'];
        let rest = arrow + gap + result + trail;
        assert(between =~= lead + rest);
        lemma_blank_start(lead, rest);
        assert(trimmed_start(rest) == rest);
        lemma_trimmed_end_keeps(rest, 1);
        let kept = trimmed_end(rest);
        assert(kept.subrange(0, 2) =~= arrow);
        if result.len() > 0 {
            law_trimming_takes_the_blanks_away(Seq::empty(), arrow + gap + result, trail);
            assert(Seq::<char>::empty() + (arrow + gap + result) + trail =~= rest);
            assert(kept == arrow + gap + result);
            assert(kept.skip(2) =~= gap + result + Seq::<char>::empty());
            law_trimming_takes_the_blanks_away(gap, result, Seq::empty());
        } else {
            law_trimming_takes_the_blanks_away(Seq::empty(), arrow, gap + trail);
            assert(Seq::<char>::empty() + arrow + (gap + trail) =~= rest);
            assert(kept == arrow);
            assert(kept.skip(2) =~= Seq::<char>::empty());
            law_trimming_takes_the_blanks_away(Seq::empty(), Seq::empty(), Seq::empty());
            assert(Seq::<char>::empty() + Seq::<char>::empty() + Seq::<char>::empty()
                =~= Seq::<char>::empty());
            assert(result =~= Seq::<char>::empty());
        }
    }
    if between == lead + result + trail && (result.len() < 2 || result[0] != '-' || result[1]
        != '>') {
        law_trimming_takes_the_blanks_away(lead, result, trail);
        if occurs_at(result, "->"@, 0) {
            assert(result.subrange(0, 2)[0] == '-');
            assert(result.subrange(0, 2)[1] == '>');
        }
    }
}

} // verus!
