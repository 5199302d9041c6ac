//! The grammar of queries and keys.
//!
//! The grammar is given as functions on a sequence of characters and a
//! place in it; each returns what it read together with the place where it
//! stopped. The parser computes exactly these functions.
use crate::error::{Error, ErrorType, error_at, key_parse_message, query_parse_message};
use crate::query::{
    ActionParameter, ActionParameterView, ActionRequest, ActionRequestView, HeaderParameter,
    HeaderParameterView, Key, Position, Query, QuerySegment, QuerySegmentView, QueryView,
    ResourceName, ResourceNameView, ResourceQuerySegment, ResourceQuerySegmentView, SegmentHeader,
    SegmentHeaderView, TransformQuerySegment, TransformQuerySegmentView, file_text, http_text,
    https_text, is_alnum, is_alpha, is_digit, is_plain, protocol_text,
};
use crate::text::{chars_of, has_at, string_of};
use vstd::string::StringExecFns;
use vstd::prelude::*;

verus! {

/// The sets of characters that runs are made of.
#[derive(Debug, Clone, Copy, PartialEq, Eq, Structural)]
pub enum CharClass {
    /// Letters, digits and `_`.
    Word,
    /// Letters, digits, `_`, `.` and `-`.
    Name,
    /// Letters, digits, `_` and `.`.
    HeaderValue,
    /// The hyphen alone.
    Hyphen,
}

pub open spec fn in_class(class: CharClass, c: char) -> bool {
    match class {
        CharClass::Word => is_alnum(c) || c == '_',
        CharClass::Name => is_alnum(c) || c == '_' || c == '.' || c == '-',
        CharClass::HeaderValue => is_alnum(c) || c == '_' || c == '.',
        CharClass::Hyphen => c == '-',
    }
}

/// Where the longest run of characters of `class` that begins at `i` ends.
pub open spec fn run_end(s: Seq<char>, i: int, class: CharClass) -> int
    decreases s.len() - i,
{
    if 0 <= i < s.len() && in_class(class, s[i]) {
        run_end(s, i + 1, class)
    } else {
        i
    }
}

/// The position of the character at index `i`. A query is one line of
/// characters of one byte each, so the offset is the index and the column
/// is one more.
pub open spec fn position_at(i: int) -> Position {
    Position { offset: i as usize, line: 1, column: (i + 1) as usize }
}

/// Where the identifier that begins at `i` ends: a letter or `_`, then
/// letters, digits and `_`.
pub open spec fn identifier_end(s: Seq<char>, i: int) -> Option<int> {
    if 0 <= i < s.len() && (is_alpha(s[i]) || s[i] == '_') {
        Some(run_end(s, i + 1, CharClass::Word))
    } else {
        None
    }
}

/// What the character after a `~` stands for.
pub open spec fn unescape(c: char) -> Option<Seq<char>> {
    if c == '~' {
        Some(seq!['~'])
    } else if c == '_' {
        Some(seq!['-'])
    } else if c == '.' {
        Some(seq![' '])
    } else if c == 'I' || c == '/' {
        Some(seq!['/'])
    } else if c == 'h' {
        Some(http_text())
    } else if c == 'H' {
        Some(https_text())
    } else if c == 'f' {
        Some(file_text())
    } else if c == 'P' {
        Some(protocol_text())
    } else {
        None
    }
}

/// The text of the string parameter that begins at `i`, and where it ends.
/// Plain characters stand for themselves, `~` before a digit for `-`, and
/// `~` with the character after it for what `unescape` says. The parameter
/// ends before the first character that is none of these.
pub open spec fn parse_text(s: Seq<char>, i: int) -> (Seq<char>, int)
    decreases s.len() - i,
{
    if i < 0 || i >= s.len() {
        (Seq::empty(), i)
    } else if is_plain(s[i]) {
        let (rest, end) = parse_text(s, i + 1);
        (seq![s[i]] + rest, end)
    } else if s[i] == '~' && i + 1 < s.len() && is_digit(s[i + 1]) {
        let (rest, end) = parse_text(s, i + 1);
        (seq!['-'] + rest, end)
    } else if s[i] == '~' && i + 1 < s.len() && unescape(s[i + 1]) is Some {
        let (rest, end) = parse_text(s, i + 2);
        (unescape(s[i + 1])->0 + rest, end)
    } else {
        (Seq::empty(), i)
    }
}

pub open spec fn link_open() -> Seq<char> {
    seq!['~', 'X', '~']
}

pub open spec fn link_close() -> Seq<char> {
    seq!['~', 'E']
}

/// Where a query may end: at the end of the text, or inside a link before
/// the mark that closes the link.
pub open spec fn at_stop(s: Seq<char>, i: int, nested: bool) -> bool {
    if nested {
        has_at(s, i, link_close())
    } else {
        i == s.len()
    }
}

/// The parameter that begins at `i`: a link where the text there opens
/// one, else a string.
pub open spec fn parse_parameter(s: Seq<char>, i: int) -> Option<(ActionParameterView, int)>
    decreases s.len() - i, 0int,
{
    if i < 0 || i > s.len() {
        None
    } else if has_at(s, i, link_open()) {
        match parse_query_at(s, i + 3, true) {
            Some((query, end)) => Some(
                (ActionParameterView::Link(query, position_at(i)), end + 2),
            ),
            None => None,
        }
    } else {
        let (text, end) = parse_text(s, i);
        Some((ActionParameterView::String(text, position_at(i)), end))
    }
}

/// The parameters that begin at `i`, each after a hyphen.
pub open spec fn parse_parameters(s: Seq<char>, i: int) -> Option<(Seq<ActionParameterView>, int)>
    decreases s.len() - i, 1int,
{
    if 0 <= i < s.len() && s[i] == '-' {
        match parse_parameter(s, i + 1) {
            Some((parameter, next)) => if i < next <= s.len() {
                match parse_parameters(s, next) {
                    Some((rest, end)) => Some((seq![parameter] + rest, end)),
                    None => None,
                }
            } else {
                None
            },
            None => None,
        }
    } else {
        Some((Seq::empty(), i))
    }
}

/// The action that begins at `i`: an identifier and its parameters.
pub open spec fn parse_action(s: Seq<char>, i: int) -> Option<(ActionRequestView, int)>
    decreases s.len() - i, 2int,
{
    match identifier_end(s, i) {
        Some(name_end) => if i < name_end <= s.len() {
            match parse_parameters(s, name_end) {
                Some((parameters, end)) => Some(
                    (
                        ActionRequestView {
                            name: s.subrange(i, name_end),
                            parameters,
                            position: position_at(i),
                        },
                        end,
                    ),
                ),
                None => None,
            }
        } else {
            None
        },
        None => None,
    }
}

/// The filename that begins at `i`: an identifier, a `.`, and a run of name
/// characters that is not empty.
pub open spec fn parse_filename(s: Seq<char>, i: int) -> Option<(ResourceNameView, int)> {
    match identifier_end(s, i) {
        Some(stem_end) => {
            let end = run_end(s, stem_end + 1, CharClass::Name);
            if stem_end < s.len() && s[stem_end] == '.' && end > stem_end + 1 {
                Some((ResourceNameView { name: s.subrange(i, end), position: position_at(i) }, end))
            } else {
                None
            }
        },
        None => None,
    }
}

/// The steps of a transform segment from `i` on: actions separated by `/`,
/// and after the last of them, after a `/`, a filename where one stands
/// there. The first step is an action.
pub open spec fn parse_steps(s: Seq<char>, i: int) -> Option<
    (Seq<ActionRequestView>, Option<ResourceNameView>, int),
>
    decreases s.len() - i, 3int,
{
    match parse_action(s, i) {
        Some((action, next)) => if i <= next < s.len() && s[next] == '/' {
            match parse_filename(s, next + 1) {
                Some((filename, end)) => Some((seq![action], Some(filename), end)),
                None => if identifier_end(s, next + 1) is Some {
                    match parse_steps(s, next + 1) {
                        Some((actions, filename, end)) => Some(
                            (seq![action] + actions, filename, end),
                        ),
                        None => None,
                    }
                } else {
                    Some((seq![action], None, next))
                },
            }
        } else {
            Some((seq![action], None, next))
        },
        None => None,
    }
}

/// The parameters of a header from `i` on: each a hyphen and a run of
/// header-value characters, which may be empty.
pub open spec fn parse_header_parameters(s: Seq<char>, i: int) -> (Seq<HeaderParameterView>, int)
    decreases s.len() - i,
{
    if 0 <= i < s.len() && s[i] == '-' {
        let value_end = run_end(s, i + 1, CharClass::HeaderValue);
        if i < value_end <= s.len() {
            let (rest, end) = parse_header_parameters(s, value_end);
            (
                seq![
                    HeaderParameterView {
                        value: s.subrange(i + 1, value_end),
                        position: position_at(i + 1),
                    },
                ] + rest,
                end,
            )
        } else {
            (Seq::empty(), i)
        }
    } else {
        (Seq::empty(), i)
    }
}

pub open spec fn is_lower(c: char) -> bool {
    'a' <= c && c <= 'z'
}

/// The header of a resource segment that begins at `i`: hyphens, `R`, a
/// name of word characters that may be empty, parameters, and `/`.
pub open spec fn parse_resource_header(s: Seq<char>, i: int) -> Option<(SegmentHeaderView, int)> {
    let mark = run_end(s, i, CharClass::Hyphen);
    if 0 <= i < mark < s.len() && s[mark] == 'R' {
        let name_end = run_end(s, mark + 1, CharClass::Word);
        let (parameters, end) = parse_header_parameters(s, name_end);
        if 0 <= end < s.len() && s[end] == '/' {
            Some(
                (
                    SegmentHeaderView {
                        name: s.subrange(mark + 1, name_end),
                        level: (mark - i - 1) as nat,
                        parameters,
                        resource: true,
                        position: position_at(i),
                    },
                    end + 1,
                ),
            )
        } else {
            None
        }
    } else {
        None
    }
}

/// The header of a transform segment that begins at `i`: hyphens and `/`,
/// or hyphens, a name that begins with a small letter and goes on with word
/// characters, parameters, and `/`.
pub open spec fn parse_transform_header(s: Seq<char>, i: int) -> Option<(SegmentHeaderView, int)> {
    let mark = run_end(s, i, CharClass::Hyphen);
    if 0 <= i < mark < s.len() && s[mark] == '/' {
        Some(
            (
                SegmentHeaderView {
                    name: Seq::empty(),
                    level: (mark - i - 1) as nat,
                    parameters: Seq::empty(),
                    resource: false,
                    position: position_at(i),
                },
                mark + 1,
            ),
        )
    } else if 0 <= i < mark < s.len() && is_lower(s[mark]) {
        let name_end = run_end(s, mark + 1, CharClass::Word);
        let (parameters, end) = parse_header_parameters(s, name_end);
        if 0 <= end < s.len() && s[end] == '/' {
            Some(
                (
                    SegmentHeaderView {
                        name: s.subrange(mark, name_end),
                        level: (mark - i - 1) as nat,
                        parameters,
                        resource: false,
                        position: position_at(i),
                    },
                    end + 1,
                ),
            )
        } else {
            None
        }
    } else {
        None
    }
}

/// The resource name that begins at `i`: a run of name characters that is
/// not empty and does not begin with a hyphen.
pub open spec fn parse_name(s: Seq<char>, i: int) -> Option<(ResourceNameView, int)> {
    let end = run_end(s, i, CharClass::Name);
    if 0 <= i < end && s[i] != '-' {
        Some((ResourceNameView { name: s.subrange(i, end), position: position_at(i) }, end))
    } else {
        None
    }
}

/// The names that follow from `i` on, each after a `/`.
pub open spec fn parse_more_names(s: Seq<char>, i: int) -> (Seq<ResourceNameView>, int)
    decreases s.len() - i,
{
    if 0 <= i < s.len() && s[i] == '/' {
        match parse_name(s, i + 1) {
            Some((name, next)) => if i < next <= s.len() {
                let (rest, end) = parse_more_names(s, next);
                (seq![name] + rest, end)
            } else {
                (Seq::empty(), i)
            },
            None => (Seq::empty(), i),
        }
    } else {
        (Seq::empty(), i)
    }
}

/// The path that begins at `i`: names separated by `/`; no name at all
/// where none begins at `i`.
pub open spec fn parse_path(s: Seq<char>, i: int) -> (Seq<ResourceNameView>, int) {
    match parse_name(s, i) {
        Some((name, next)) => {
            let (rest, end) = parse_more_names(s, next);
            (seq![name] + rest, end)
        },
        None => (Seq::empty(), i),
    }
}

/// The transform segment with a header that begins at `i`.
pub open spec fn parse_headed_transform(s: Seq<char>, i: int) -> Option<
    (TransformQuerySegmentView, int),
>
    decreases s.len() - i, 4int,
{
    match parse_transform_header(s, i) {
        Some((header, next)) => if i < next <= s.len() {
            match parse_steps(s, next) {
                Some((query, filename, end)) => Some(
                    (TransformQuerySegmentView { header: Some(header), query, filename }, end),
                ),
                None => None,
            }
        } else {
            None
        },
        None => None,
    }
}

/// The segment with a header that begins at `i`: a resource segment where
/// the header is that of one, else a transform segment.
pub open spec fn parse_segment(s: Seq<char>, i: int) -> Option<(QuerySegmentView, int)>
    decreases s.len() - i, 5int,
{
    match parse_resource_header(s, i) {
        Some((header, next)) => {
            let (key, end) = parse_path(s, next);
            Some(
                (
                    QuerySegmentView::Resource(
                        ResourceQuerySegmentView { header: Some(header), key },
                    ),
                    end,
                ),
            )
        },
        None => match parse_headed_transform(s, i) {
            Some((transform, end)) => Some((QuerySegmentView::Transform(transform), end)),
            None => None,
        },
    }
}

/// The segments with headers from `i` on, separated by `/`. Another
/// segment follows wherever a `/` and a hyphen stand after one.
pub open spec fn parse_segments(s: Seq<char>, i: int) -> Option<(Seq<QuerySegmentView>, int)>
    decreases s.len() - i, 6int,
{
    match parse_segment(s, i) {
        Some((segment, next)) => if next >= i && next + 1 < s.len() && s[next] == '/' && s[next
            + 1] == '-' {
            match parse_segments(s, next + 1) {
                Some((rest, end)) => Some((seq![segment] + rest, end)),
                None => None,
            }
        } else {
            Some((seq![segment], next))
        },
        None => None,
    }
}

/// The query that is a chain of actions without a header, from `i` on.
pub open spec fn parse_plain_transform(s: Seq<char>, i: int, absolute: bool) -> Option<
    (QueryView, int),
>
    decreases s.len() - i, 7int,
{
    match parse_steps(s, i) {
        Some((query, filename, end)) => Some(
            (
                QueryView {
                    segments: seq![
                        QuerySegmentView::Transform(
                            TransformQuerySegmentView { header: None, query, filename },
                        ),
                    ],
                    absolute,
                },
                end,
            ),
        ),
        None => None,
    }
}

/// The query that is a path without a header, a `/`, and a transform
/// segment with a header, from `i` on.
pub open spec fn parse_resource_transform(s: Seq<char>, i: int, absolute: bool) -> Option<
    (QueryView, int),
>
    decreases s.len() - i, 7int,
{
    let (key, next) = parse_path(s, i);
    if key.len() > 0 && i <= next < s.len() && s[next] == '/' {
        match parse_headed_transform(s, next + 1) {
            Some((transform, end)) => Some(
                (
                    QueryView {
                        segments: seq![
                            QuerySegmentView::Resource(
                                ResourceQuerySegmentView { header: None, key },
                            ),
                            QuerySegmentView::Transform(transform),
                        ],
                        absolute,
                    },
                    end,
                ),
            ),
            None => None,
        }
    } else {
        None
    }
}

/// The query that is a sequence of segments with headers, from `i` on.
pub open spec fn parse_general(s: Seq<char>, i: int, absolute: bool) -> Option<(QueryView, int)>
    decreases s.len() - i, 7int,
{
    match parse_segments(s, i) {
        Some((segments, end)) => Some((QueryView { segments, absolute }, end)),
        None => None,
    }
}

/// Whether `r` is a reading that ends where a query may end.
pub open spec fn complete(s: Seq<char>, r: Option<(QueryView, int)>, nested: bool) -> bool {
    r is Some && at_stop(s, (r->0).1, nested)
}

/// The query that begins at `i`. A leading `/` makes it absolute. Of the
/// forms of a query, the first that reads up to a place where the query may
/// end is taken: a chain of actions; a path and a transform segment; a
/// sequence of segments with headers; nothing.
pub open spec fn parse_query_at(s: Seq<char>, i: int, nested: bool) -> Option<(QueryView, int)>
    decreases s.len() - i, 8int,
{
    if i < 0 || i > s.len() {
        None
    } else {
        let absolute = i < s.len() && s[i] == '/';
        let start = if absolute {
            i + 1
        } else {
            i
        };
        if complete(s, parse_plain_transform(s, start, absolute), nested) {
            parse_plain_transform(s, start, absolute)
        } else if complete(s, parse_resource_transform(s, start, absolute), nested) {
            parse_resource_transform(s, start, absolute)
        } else if complete(s, parse_general(s, start, absolute), nested) {
            parse_general(s, start, absolute)
        } else if at_stop(s, start, nested) {
            Some((QueryView { segments: Seq::empty(), absolute }, start))
        } else {
            None
        }
    }
}

/// The query that `s` is, where `s` is a query from its first character to
/// its last.
pub open spec fn parse_query_text(s: Seq<char>) -> Option<QueryView> {
    match parse_query_at(s, 0, false) {
        Some((query, _)) => Some(query),
        None => None,
    }
}

/// The key that `s` is, where `s` is a path from its first character to its
/// last.
pub open spec fn parse_key_text(s: Seq<char>) -> Option<Seq<ResourceNameView>> {
    let (names, end) = parse_path(s, 0);
    if end == s.len() {
        Some(names)
    } else {
        None
    }
}

// ---------------------------------------------------------------------------
// Reading
// ---------------------------------------------------------------------------
fn letter(c: char) -> (r: bool)
    ensures
        r == is_alpha(c),
{
    (c >= 'a' && c <= 'z') || (c >= 'A' && c <= 'Z')
}

fn digit(c: char) -> (r: bool)
    ensures
        r == is_digit(c),
{
    c >= '0' && c <= '9'
}

fn class_has(class: CharClass, c: char) -> (r: bool)
    ensures
        r == in_class(class, c),
{
    match class {
        CharClass::Word => letter(c) || digit(c) || c == '_',
        CharClass::Name => letter(c) || digit(c) || c == '_' || c == '.' || c == '-',
        CharClass::HeaderValue => letter(c) || digit(c) || c == '_' || c == '.',
        CharClass::Hyphen => c == '-',
    }
}

fn scan(v: &Vec<char>, i: usize, class: CharClass) -> (end: usize)
    requires
        i <= v.len(),
    ensures
        end == run_end(v@, i as int, class),
        i <= end <= v.len(),
{
    let mut j: usize = i;
    while j < v.len() && class_has(class, v[j])
        invariant
            i <= j <= v.len(),
            run_end(v@, i as int, class) == run_end(v@, j as int, class),
        decreases v.len() - j,
    {
        j += 1;
    }
    j
}

fn place(i: usize) -> (p: Position)
    requires
        i < usize::MAX,
    ensures
        p == position_at(i as int),
{
    Position::new(i, 1, i + 1)
}

fn identifier_stop(v: &Vec<char>, i: usize) -> (r: Option<usize>)
    requires
        i <= v.len(),
    ensures
        match r {
            Some(end) => identifier_end(v@, i as int) == Some(end as int) && i < end <= v.len(),
            None => identifier_end(v@, i as int) is None,
        },
{
    if i < v.len() && (letter(v[i]) || v[i] == '_') {
        Some(scan(v, i + 1, CharClass::Word))
    } else {
        None
    }
}

fn unescaped(c: char) -> (r: Option<String>)
    ensures
        match r {
            Some(text) => unescape(c) == Some(text@),
            None => unescape(c) is None,
        },
{
    let mut out = String::new();
    if c == '~' {
        out.push('~');
        assert(out@ =~= seq!['~']);
    } else if c == '_' {
        out.push('-');
        assert(out@ =~= seq!['-']);
    } else if c == '.' {
        out.push(' ');
        assert(out@ =~= seq![' ']);
    } else if c == 'I' || c == '/' {
        out.push('/');
        assert(out@ =~= seq!['/']);
    } else if c == 'h' {
        out.push('h');
        out.push('t');
        out.push('t');
        out.push('p');
        out.push(':');
        out.push('/');
        out.push('/');
        assert(out@ =~= http_text());
    } else if c == 'H' {
        out.push('h');
        out.push('t');
        out.push('t');
        out.push('p');
        out.push('s');
        out.push(':');
        out.push('/');
        out.push('/');
        assert(out@ =~= https_text());
    } else if c == 'f' {
        out.push('f');
        out.push('i');
        out.push('l');
        out.push('e');
        out.push(':');
        out.push('/');
        out.push('/');
        assert(out@ =~= file_text());
    } else if c == 'P' {
        out.push(':');
        out.push('/');
        out.push('/');
        assert(out@ =~= protocol_text());
    } else {
        return None;
    }
    Some(out)
}

fn read_text(v: &Vec<char>, i: usize) -> (r: (String, usize))
    requires
        i <= v.len(),
    ensures
        (r.0@, r.1 as int) == parse_text(v@, i as int),
        i <= r.1 <= v.len(),
{
    let mut out = String::new();
    let mut j: usize = i;
    loop
        invariant
            i <= j <= v.len(),
            parse_text(v@, i as int) == (out@ + parse_text(v@, j as int).0, parse_text(
                v@,
                j as int,
            ).1),
        ensures
            parse_text(v@, j as int) == (Seq::<char>::empty(), j as int),
        decreases v.len() - j,
    {
        if j >= v.len() {
            break;
        }
        let c = v[j];
        let ghost before = out@;
        if class_has(CharClass::Word, c) && c != '_' || c == '_' || c == '+' || c == '.' {
            assert(is_plain(c));
            out.push(c);
            assert(parse_text(v@, j as int).0 =~= seq![c] + parse_text(v@, j + 1).0);
            assert(out@ + parse_text(v@, j + 1).0 =~= before + parse_text(v@, j as int).0);
            j += 1;
        } else if c == '~' && j + 1 < v.len() && digit(v[j + 1]) {
            out.push('-');
            assert(parse_text(v@, j as int).0 =~= seq!['-'] + parse_text(v@, j + 1).0);
            assert(out@ + parse_text(v@, j + 1).0 =~= before + parse_text(v@, j as int).0);
            j += 1;
        } else if c == '~' && j + 1 < v.len() {
            match unescaped(v[j + 1]) {
                Some(text) => {
                    out.append(text.as_str());
                    assert(parse_text(v@, j as int).0 =~= text@ + parse_text(v@, j + 2).0);
                    assert(out@ + parse_text(v@, j + 2).0 =~= before + parse_text(
                        v@,
                        j as int,
                    ).0);
                    j += 2;
                },
                None => {
                    break;
                },
            }
        } else {
            break;
        }
    }
    proof {
        assert(parse_text(v@, j as int) == (Seq::<char>::empty(), j as int));
        assert(out@ + Seq::<char>::empty() =~= out@);
    }
    (out, j)
}

fn read_parameter(v: &Vec<char>, i: usize) -> (r: Option<(ActionParameter, usize)>)
    requires
        i <= v.len(),
        v.len() < usize::MAX,
    ensures
        match r {
            Some((p, end)) => parse_parameter(v@, i as int) == Some((p@, end as int)) && i <= end
                <= v.len(),
            None => parse_parameter(v@, i as int) is None,
        },
    decreases v.len() - i, 0int,
{
    let open: Vec<char> = vec!['~', 'X', '~'];
    assert(open@ =~= link_open());
    if crate::text::matches_at(v, i, &open) {
        let inner = read_query_at(v, i + 3, true);
        assert(reading_view(inner) == parse_query_at(v@, i + 3, true));
        match inner {
            Some((query, end)) => Some((ActionParameter::Link(query, place(i)), end + 2)),
            None => None,
        }
    } else {
        let (text, end) = read_text(v, i);
        Some((ActionParameter::String(text, place(i)), end))
    }
}

fn read_parameters(v: &Vec<char>, i: usize) -> (r: Option<(Vec<ActionParameter>, usize)>)
    requires
        i <= v.len(),
        v.len() < usize::MAX,
    ensures
        match r {
            Some((ps, end)) => parse_parameters(v@, i as int) == Some(
                (crate::query::parameters_view(ps@), end as int),
            ) && i <= end <= v.len(),
            None => parse_parameters(v@, i as int) is None,
        },
    decreases v.len() - i, 1int,
{
    if i < v.len() && v[i] == '-' {
        match read_parameter(v, i + 1) {
            Some((parameter, next)) => {
                match read_parameters(v, next) {
                    Some((rest, end)) => {
                        let mut all: Vec<ActionParameter> = Vec::new();
                        let ghost first = parameter@;
                        let ghost others = crate::query::parameters_view(rest@);
                        all.push(parameter);
                        let mut rest = rest;
                        all.append(&mut rest);
                        assert(crate::query::parameters_view(all@) =~= seq![first] + others);
                        Some((all, end))
                    },
                    None => None,
                }
            },
            None => None,
        }
    } else {
        let none: Vec<ActionParameter> = Vec::new();
        assert(crate::query::parameters_view(none@) =~= Seq::empty());
        Some((none, i))
    }
}

fn read_action(v: &Vec<char>, i: usize) -> (r: Option<(ActionRequest, usize)>)
    requires
        i <= v.len(),
        v.len() < usize::MAX,
    ensures
        match r {
            Some((a, end)) => parse_action(v@, i as int) == Some((a@, end as int)) && i < end
                <= v.len(),
            None => parse_action(v@, i as int) is None,
        },
    decreases v.len() - i, 2int,
{
    match identifier_stop(v, i) {
        Some(name_end) => {
            match read_parameters(v, name_end) {
                Some((parameters, end)) => Some(
                    (
                        ActionRequest {
                            name: string_of(v, i, name_end),
                            parameters,
                            position: place(i),
                        },
                        end,
                    ),
                ),
                None => None,
            }
        },
        None => None,
    }
}

fn read_filename(v: &Vec<char>, i: usize) -> (r: Option<(ResourceName, usize)>)
    requires
        i <= v.len(),
        v.len() < usize::MAX,
    ensures
        match r {
            Some((name, end)) => parse_filename(v@, i as int) == Some((name@, end as int)) && i
                < end <= v.len(),
            None => parse_filename(v@, i as int) is None,
        },
{
    match identifier_stop(v, i) {
        Some(stem_end) => {
            if stem_end < v.len() && v[stem_end] == '.' {
                let end = scan(v, stem_end + 1, CharClass::Name);
                if end > stem_end + 1 {
                    Some((ResourceName { name: string_of(v, i, end), position: place(i) }, end))
                } else {
                    None
                }
            } else {
                None
            }
        },
        None => None,
    }
}

fn read_steps(v: &Vec<char>, i: usize) -> (r: Option<
    (Vec<ActionRequest>, Option<ResourceName>, usize),
>)
    requires
        i <= v.len(),
        v.len() < usize::MAX,
    ensures
        match r {
            Some((actions, filename, end)) => parse_steps(v@, i as int) == Some(
                (
                    crate::query::actions_view(actions@),
                    crate::query::option_name_view(filename),
                    end as int,
                ),
            ) && i < end <= v.len(),
            None => parse_steps(v@, i as int) is None,
        },
    decreases v.len() - i, 3int,
{
    match read_action(v, i) {
        Some((action, next)) => {
            let ghost first = action@;
            let mut all: Vec<ActionRequest> = Vec::new();
            all.push(action);
            if next < v.len() && v[next] == '/' {
                match read_filename(v, next + 1) {
                    Some((filename, end)) => {
                        assert(crate::query::actions_view(all@) =~= seq![first]);
                        Some((all, Some(filename), end))
                    },
                    None => {
                        if identifier_stop(v, next + 1).is_some() {
                            match read_steps(v, next + 1) {
                                Some((rest, filename, end)) => {
                                    let ghost others = crate::query::actions_view(rest@);
                                    let mut rest = rest;
                                    all.append(&mut rest);
                                    assert(crate::query::actions_view(all@) =~= seq![first]
                                        + others);
                                    Some((all, filename, end))
                                },
                                None => None,
                            }
                        } else {
                            assert(crate::query::actions_view(all@) =~= seq![first]);
                            Some((all, None, next))
                        }
                    },
                }
            } else {
                assert(crate::query::actions_view(all@) =~= seq![first]);
                Some((all, None, next))
            }
        },
        None => None,
    }
}

fn read_header_parameters(v: &Vec<char>, i: usize) -> (r: (Vec<HeaderParameter>, usize))
    requires
        i <= v.len(),
        v.len() < usize::MAX,
    ensures
        parse_header_parameters(v@, i as int) == (
            crate::query::header_parameters_view(r.0@),
            r.1 as int,
        ),
        i <= r.1 <= v.len(),
    decreases v.len() - i,
{
    if i < v.len() && v[i] == '-' {
        let value_end = scan(v, i + 1, CharClass::HeaderValue);
        let parameter = HeaderParameter {
            value: string_of(v, i + 1, value_end),
            position: place(i + 1),
        };
        let ghost first = parameter@;
        let (rest, end) = read_header_parameters(v, value_end);
        let ghost others = crate::query::header_parameters_view(rest@);
        let mut all: Vec<HeaderParameter> = Vec::new();
        all.push(parameter);
        let mut rest = rest;
        all.append(&mut rest);
        assert(crate::query::header_parameters_view(all@) =~= seq![first] + others);
        (all, end)
    } else {
        let none: Vec<HeaderParameter> = Vec::new();
        assert(crate::query::header_parameters_view(none@) =~= Seq::empty());
        (none, i)
    }
}

fn read_resource_header(v: &Vec<char>, i: usize) -> (r: Option<(SegmentHeader, usize)>)
    requires
        i <= v.len(),
        v.len() < usize::MAX,
    ensures
        match r {
            Some((h, end)) => parse_resource_header(v@, i as int) == Some((h@, end as int)) && i
                < end <= v.len(),
            None => parse_resource_header(v@, i as int) is None,
        },
{
    let mark = scan(v, i, CharClass::Hyphen);
    if i < mark && mark < v.len() && v[mark] == 'R' {
        let name_end = scan(v, mark + 1, CharClass::Word);
        let (parameters, end) = read_header_parameters(v, name_end);
        if end < v.len() && v[end] == '/' {
            Some(
                (
                    SegmentHeader {
                        name: string_of(v, mark + 1, name_end),
                        level: mark - i - 1,
                        parameters,
                        resource: true,
                        position: place(i),
                    },
                    end + 1,
                ),
            )
        } else {
            None
        }
    } else {
        None
    }
}

fn read_transform_header(v: &Vec<char>, i: usize) -> (r: Option<(SegmentHeader, usize)>)
    requires
        i <= v.len(),
        v.len() < usize::MAX,
    ensures
        match r {
            Some((h, end)) => parse_transform_header(v@, i as int) == Some((h@, end as int)) && i
                < end <= v.len(),
            None => parse_transform_header(v@, i as int) is None,
        },
{
    let mark = scan(v, i, CharClass::Hyphen);
    if i < mark && mark < v.len() && v[mark] == '/' {
        let h = SegmentHeader {
            name: String::new(),
            level: mark - i - 1,
            parameters: Vec::new(),
            resource: false,
            position: place(i),
        };
        assert(h@.parameters =~= Seq::empty());
        Some((h, mark + 1))
    } else if i < mark && mark < v.len() && v[mark] >= 'a' && v[mark] <= 'z' {
        let name_end = scan(v, mark + 1, CharClass::Word);
        let (parameters, end) = read_header_parameters(v, name_end);
        if end < v.len() && v[end] == '/' {
            Some(
                (
                    SegmentHeader {
                        name: string_of(v, mark, name_end),
                        level: mark - i - 1,
                        parameters,
                        resource: false,
                        position: place(i),
                    },
                    end + 1,
                ),
            )
        } else {
            None
        }
    } else {
        None
    }
}

fn read_name(v: &Vec<char>, i: usize) -> (r: Option<(ResourceName, usize)>)
    requires
        i <= v.len(),
        v.len() < usize::MAX,
    ensures
        match r {
            Some((name, end)) => parse_name(v@, i as int) == Some((name@, end as int)) && i < end
                <= v.len(),
            None => parse_name(v@, i as int) is None,
        },
{
    let end = scan(v, i, CharClass::Name);
    if i < end && v[i] != '-' {
        Some((ResourceName { name: string_of(v, i, end), position: place(i) }, end))
    } else {
        None
    }
}

fn read_more_names(v: &Vec<char>, i: usize, names: &mut Vec<ResourceName>) -> (end: usize)
    requires
        i <= v.len(),
        v.len() < usize::MAX,
    ensures
        crate::query::names_view(final(names)@) == crate::query::names_view(old(names)@)
            + parse_more_names(v@, i as int).0,
        end == parse_more_names(v@, i as int).1,
        i <= end <= v.len(),
    decreases v.len() - i,
{
    if i < v.len() && v[i] == '/' {
        match read_name(v, i + 1) {
            Some((name, next)) => {
                let ghost before = crate::query::names_view(names@);
                let ghost first = name@;
                names.push(name);
                assert(crate::query::names_view(names@) =~= before.push(first));
                let end = read_more_names(v, next, names);
                assert(crate::query::names_view(names@) =~= before + (seq![first]
                    + parse_more_names(v@, next as int).0));
                end
            },
            None => {
                assert(crate::query::names_view(names@) + Seq::empty() =~= crate::query::names_view(
                    names@,
                ));
                i
            },
        }
    } else {
        assert(crate::query::names_view(names@) + Seq::empty() =~= crate::query::names_view(
            names@,
        ));
        i
    }
}

fn read_path(v: &Vec<char>, i: usize) -> (r: (Vec<ResourceName>, usize))
    requires
        i <= v.len(),
        v.len() < usize::MAX,
    ensures
        parse_path(v@, i as int) == (crate::query::names_view(r.0@), r.1 as int),
        i <= r.1 <= v.len(),
{
    let mut names: Vec<ResourceName> = Vec::new();
    match read_name(v, i) {
        Some((name, next)) => {
            let ghost first = name@;
            names.push(name);
            assert(crate::query::names_view(names@) =~= seq![first]);
            let end = read_more_names(v, next, &mut names);
            (names, end)
        },
        None => {
            assert(crate::query::names_view(names@) =~= Seq::empty());
            (names, i)
        },
    }
}

fn read_headed_transform(v: &Vec<char>, i: usize) -> (r: Option<(TransformQuerySegment, usize)>)
    requires
        i <= v.len(),
        v.len() < usize::MAX,
    ensures
        match r {
            Some((t, end)) => parse_headed_transform(v@, i as int) == Some((t@, end as int)) && i
                < end <= v.len(),
            None => parse_headed_transform(v@, i as int) is None,
        },
    decreases v.len() - i, 4int,
{
    match read_transform_header(v, i) {
        Some((header, next)) => {
            match read_steps(v, next) {
                Some((query, filename, end)) => Some(
                    (TransformQuerySegment { header: Some(header), query, filename }, end),
                ),
                None => None,
            }
        },
        None => None,
    }
}

fn read_segment(v: &Vec<char>, i: usize) -> (r: Option<(QuerySegment, usize)>)
    requires
        i <= v.len(),
        v.len() < usize::MAX,
    ensures
        match r {
            Some((t, end)) => parse_segment(v@, i as int) == Some((t@, end as int)) && i < end
                <= v.len(),
            None => parse_segment(v@, i as int) is None,
        },
    decreases v.len() - i, 5int,
{
    match read_resource_header(v, i) {
        Some((header, next)) => {
            let (names, end) = read_path(v, next);
            Some(
                (
                    QuerySegment::Resource(
                        ResourceQuerySegment { header: Some(header), key: Key(names) },
                    ),
                    end,
                ),
            )
        },
        None => match read_headed_transform(v, i) {
            Some((transform, end)) => Some((QuerySegment::Transform(transform), end)),
            None => None,
        },
    }
}

fn read_segments(v: &Vec<char>, i: usize) -> (r: Option<(Vec<QuerySegment>, usize)>)
    requires
        i <= v.len(),
        v.len() < usize::MAX,
    ensures
        match r {
            Some((segments, end)) => parse_segments(v@, i as int) == Some(
                (crate::query::segments_view(segments@), end as int),
            ) && i < end <= v.len(),
            None => parse_segments(v@, i as int) is None,
        },
    decreases v.len() - i, 6int,
{
    match read_segment(v, i) {
        Some((segment, next)) => {
            let ghost first = segment@;
            let mut all: Vec<QuerySegment> = Vec::new();
            all.push(segment);
            if next + 1 < v.len() && v[next] == '/' && v[next + 1] == '-' {
                match read_segments(v, next + 1) {
                    Some((rest, end)) => {
                        let ghost others = crate::query::segments_view(rest@);
                        let mut rest = rest;
                        all.append(&mut rest);
                        assert(crate::query::segments_view(all@) =~= seq![first] + others);
                        Some((all, end))
                    },
                    None => None,
                }
            } else {
                assert(crate::query::segments_view(all@) =~= seq![first]);
                Some((all, next))
            }
        },
        None => None,
    }
}

fn stops(v: &Vec<char>, i: usize, nested: bool) -> (r: bool)
    requires
        i <= v.len(),
    ensures
        r == at_stop(v@, i as int, nested),
{
    if nested {
        let close: Vec<char> = vec!['~', 'E'];
        assert(close@ =~= link_close());
        crate::text::matches_at(v, i, &close)
    } else {
        i == v.len()
    }
}

fn read_plain_transform(v: &Vec<char>, i: usize, absolute: bool) -> (r: Option<(Query, usize)>)
    requires
        i <= v.len(),
        v.len() < usize::MAX,
    ensures
        match r {
            Some((q, end)) => parse_plain_transform(v@, i as int, absolute) == Some(
                (q@, end as int),
            ) && i <= end <= v.len(),
            None => parse_plain_transform(v@, i as int, absolute) is None,
        },
    decreases v.len() - i, 7int,
{
    match read_steps(v, i) {
        Some((query, filename, end)) => {
            let mut segments: Vec<QuerySegment> = Vec::new();
            let segment = QuerySegment::Transform(
                TransformQuerySegment { header: None, query, filename },
            );
            let ghost only = segment@;
            segments.push(segment);
            assert(crate::query::segments_view(segments@) =~= seq![only]);
            Some((Query { segments, absolute }, end))
        },
        None => None,
    }
}

fn read_resource_transform(v: &Vec<char>, i: usize, absolute: bool) -> (r: Option<(Query, usize)>)
    requires
        i <= v.len(),
        v.len() < usize::MAX,
    ensures
        match r {
            Some((q, end)) => parse_resource_transform(v@, i as int, absolute) == Some(
                (q@, end as int),
            ) && i <= end <= v.len(),
            None => parse_resource_transform(v@, i as int, absolute) is None,
        },
    decreases v.len() - i, 7int,
{
    let (names, next) = read_path(v, i);
    if names.len() > 0 && next < v.len() && v[next] == '/' {
        match read_headed_transform(v, next + 1) {
            Some((transform, end)) => {
                let mut segments: Vec<QuerySegment> = Vec::new();
                let resource = QuerySegment::Resource(
                    ResourceQuerySegment { header: None, key: Key(names) },
                );
                let ghost first = resource@;
                let ghost second = QuerySegmentView::Transform(transform@);
                segments.push(resource);
                segments.push(QuerySegment::Transform(transform));
                assert(crate::query::segments_view(segments@) =~= seq![first, second]);
                Some((Query { segments, absolute }, end))
            },
            None => None,
        }
    } else {
        None
    }
}

fn read_general(v: &Vec<char>, i: usize, absolute: bool) -> (r: Option<(Query, usize)>)
    requires
        i <= v.len(),
        v.len() < usize::MAX,
    ensures
        match r {
            Some((q, end)) => parse_general(v@, i as int, absolute) == Some((q@, end as int)) && i
                <= end <= v.len(),
            None => parse_general(v@, i as int, absolute) is None,
        },
    decreases v.len() - i, 7int,
{
    match read_segments(v, i) {
        Some((segments, end)) => Some((Query { segments, absolute }, end)),
        None => None,
    }
}

/// What a reading is to the grammar.
pub open spec fn reading_view(r: Option<(Query, usize)>) -> Option<(QueryView, int)> {
    match r {
        Some((q, end)) => Some((q@, end as int)),
        None => None,
    }
}

fn finished(v: &Vec<char>, r: &Option<(Query, usize)>, nested: bool) -> (done: bool)
    requires
        r is Some ==> (r->0).1 <= v.len(),
    ensures
        done == complete(v@, reading_view(*r), nested),
{
    match r {
        Some((_, end)) => stops(v, *end, nested),
        None => false,
    }
}

fn read_query_at(v: &Vec<char>, i: usize, nested: bool) -> (r: Option<(Query, usize)>)
    requires
        i <= v.len(),
        v.len() < usize::MAX,
    ensures
        reading_view(r) == parse_query_at(v@, i as int, nested),
        r is Some ==> i <= (r->0).1 <= v.len() && (nested ==> (r->0).1 + 2 <= v.len()),
    decreases v.len() - i, 8int,
{
    let absolute = i < v.len() && v[i] == '/';
    let start = if absolute {
        i + 1
    } else {
        i
    };
    let plain = read_plain_transform(v, start, absolute);
    assert(reading_view(plain) == parse_plain_transform(v@, start as int, absolute));
    if finished(v, &plain, nested) {
        return plain;
    }
    let mixed = read_resource_transform(v, start, absolute);
    assert(reading_view(mixed) == parse_resource_transform(v@, start as int, absolute));
    if finished(v, &mixed, nested) {
        return mixed;
    }
    let general = read_general(v, start, absolute);
    assert(reading_view(general) == parse_general(v@, start as int, absolute));
    if finished(v, &general, nested) {
        return general;
    }
    if stops(v, start, nested) {
        let q = Query { segments: Vec::new(), absolute };
        assert(q@.segments =~= Seq::empty());
        Some((q, start))
    } else {
        None
    }
}

// ---------------------------------------------------------------------------
// Queries and keys from text
// ---------------------------------------------------------------------------
/// Where reading a text as a query stopped: where the first form of a
/// query that can be read at all leaves off, whether or not the text ends
/// there; the start where none can be read.
pub open spec fn stopping_point(s: Seq<char>) -> int {
    let absolute = 0 < s.len() && s[0] == '/';
    let start: int = if absolute {
        1
    } else {
        0
    };
    if parse_plain_transform(s, start, absolute) is Some {
        (parse_plain_transform(s, start, absolute)->0).1
    } else if parse_resource_transform(s, start, absolute) is Some {
        (parse_resource_transform(s, start, absolute)->0).1
    } else if parse_general(s, start, absolute) is Some {
        (parse_general(s, start, absolute)->0).1
    } else {
        start
    }
}

/// What is said of a text that is longer than any place in it can be
/// numbered.
pub open spec fn too_long_text() -> Seq<char> {
    "text too long"@
}

/// What is said of a text that is no query or key as a whole.
pub open spec fn unexpected_text(rest: Seq<char>) -> Seq<char> {
    "unexpected '"@ + rest + "'"@
}

/// The error for a text that is no query: it names the text, shows what
/// was left unread, and points at the place where reading stopped.
pub open spec fn query_error(s: Seq<char>) -> crate::error::ErrorView {
    if s.len() >= usize::MAX {
        error_at(
            ErrorType::ParseError,
            query_parse_message(s, too_long_text()),
            Position::spec_unknown(),
        )
    } else {
        error_at(
            ErrorType::ParseError,
            query_parse_message(
                s,
                unexpected_text(s.subrange(stopping_point(s), s.len() as int)),
            ),
            position_at(stopping_point(s)),
        )
    }
}

/// The error for a text that is no key.
pub open spec fn key_error(s: Seq<char>) -> crate::error::ErrorView {
    if s.len() >= usize::MAX {
        error_at(
            ErrorType::ParseError,
            key_parse_message(s, too_long_text()),
            Position::spec_unknown(),
        )
    } else {
        error_at(
            ErrorType::ParseError,
            key_parse_message(
                s,
                unexpected_text(s.subrange(parse_path(s, 0).1, s.len() as int)),
            ),
            position_at(parse_path(s, 0).1),
        )
    }
}

fn unexpected(v: &Vec<char>, from: usize) -> (s: String)
    requires
        from <= v.len(),
    ensures
        s@ == unexpected_text(v@.subrange(from as int, v.len() as int)),
{
    let rest = string_of(v, from, v.len());
    String::from_str("unexpected '").concat(rest.as_str()).concat("'")
}

fn stopped_at(v: &Vec<char>) -> (at: usize)
    requires
        v.len() < usize::MAX,
    ensures
        at == stopping_point(v@),
        at <= v.len(),
{
    let absolute = 0 < v.len() && v[0] == '/';
    let start: usize = if absolute {
        1
    } else {
        0
    };
    let plain = read_plain_transform(v, start, absolute);
    assert(reading_view(plain) == parse_plain_transform(v@, start as int, absolute));
    match plain {
        Some((_, end)) => {
            return end;
        },
        None => {},
    }
    let mixed = read_resource_transform(v, start, absolute);
    assert(reading_view(mixed) == parse_resource_transform(v@, start as int, absolute));
    match mixed {
        Some((_, end)) => {
            return end;
        },
        None => {},
    }
    let general = read_general(v, start, absolute);
    assert(reading_view(general) == parse_general(v@, start as int, absolute));
    match general {
        Some((_, end)) => end,
        None => start,
    }
}

/// What reading `s` as a query gives: the query, or the error that says
/// why it is none.
pub open spec fn parse_result(s: Seq<char>) -> Result<QueryView, crate::error::ErrorView> {
    if parse_query_text(s) is Some && s.len() < usize::MAX {
        Ok(parse_query_text(s)->0)
    } else {
        Err(query_error(s))
    }
}

/// What reading `s` as a key gives.
pub open spec fn parse_key_result(s: Seq<char>) -> Result<
    Seq<ResourceNameView>,
    crate::error::ErrorView,
> {
    if parse_key_text(s) is Some && s.len() < usize::MAX {
        Ok(parse_key_text(s)->0)
    } else {
        Err(key_error(s))
    }
}

/// Reads a query. The text is a query where the grammar reads it from its
/// first character to its last; the result is then the tree that the
/// grammar gives, each node with the position of its first character. Any
/// other text, and any text too long for its places to be numbered, is
/// refused with a `ParseError`.
pub fn parse_query(query: &str) -> (r: Result<Query, Error>)
    ensures
        match r {
            Ok(q) => parse_result(query@) == Ok::<QueryView, crate::error::ErrorView>(q@),
            Err(e) => parse_result(query@) == Err::<QueryView, crate::error::ErrorView>(e@),
        },
{
    let v = chars_of(query);
    if v.len() == usize::MAX {
        return Err(Error::query_parse_error(query, "text too long", &Position::unknown()));
    }
    let reading = read_query_at(&v, 0, false);
    assert(reading_view(reading) == parse_query_at(v@, 0, false));
    match reading {
        Some((q, _)) => Ok(q),
        None => {
            let at = stopped_at(&v);
            let what = unexpected(&v, at);
            Err(Error::query_parse_error(query, what.as_str(), &place(at)))
        },
    }
}

/// Reads an action at the beginning of `text`: a name and its parameters.
/// With the action comes the place where it ends; what follows it in the
/// text is not looked at. No action is read where the text begins with
/// none, or is too long for its places to be numbered.
pub fn action_request(text: &str) -> (r: Option<(ActionRequest, usize)>)
    ensures
        match r {
            Some((action, end)) => text@.len() < usize::MAX && parse_action(text@, 0) == Some(
                (action@, end as int),
            ) && 0 < end <= text@.len(),
            None => parse_action(text@, 0) is None || text@.len() >= usize::MAX,
        },
{
    let v = chars_of(text);
    if v.len() == usize::MAX {
        return None;
    }
    read_action(&v, 0)
}

/// Reads a query at the beginning of `text`, up to the place that comes
/// back with it. A query is read only up to the end of the text.
pub fn query_parser(text: &str) -> (r: Option<(Query, usize)>)
    ensures
        match r {
            Some((query, end)) => parse_result(text@) == Ok::<QueryView, crate::error::ErrorView>(
                query@,
            ) && end == text@.len(),
            None => parse_result(text@) is Err,
        },
{
    let v = chars_of(text);
    if v.len() == usize::MAX {
        return None;
    }
    let reading = read_query_at(&v, 0, false);
    assert(reading_view(reading) == parse_query_at(v@, 0, false));
    reading
}

/// Reads a key: names separated by `/`. The empty text is the empty key.
pub fn parse_key(key: &str) -> (r: Result<Key, Error>)
    ensures
        match r {
            Ok(k) => parse_key_result(key@) == Ok::<
                Seq<ResourceNameView>,
                crate::error::ErrorView,
            >(k@),
            Err(e) => parse_key_result(key@) == Err::<
                Seq<ResourceNameView>,
                crate::error::ErrorView,
            >(e@),
        },
{
    let v = chars_of(key);
    if v.len() == usize::MAX {
        return Err(Error::key_parse_error(key, "text too long", &Position::unknown()));
    }
    let (names, end) = read_path(&v, 0);
    if end == v.len() {
        Ok(Key(names))
    } else {
        let what = unexpected(&v, end);
        Err(Error::key_parse_error(key, what.as_str(), &place(end)))
    }
}

} // verus!
