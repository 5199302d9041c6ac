//! Reading what was written: the text of a tree that the grammar gives is
//! read back as the same tree.
use crate::parse::{
    CharClass, at_stop, identifier_end, in_class, link_close, link_open, parse_action,
    parse_filename, parse_header_parameters, parse_key_text, parse_more_names, parse_name,
    parse_parameter, parse_parameters, parse_path, parse_query_at, parse_query_text,
    parse_steps, parse_text, run_end, unescape,
};
use crate::query::{
    ActionParameterView, ActionRequestView, HeaderParameterView, Position, QuerySegmentView,
    QueryView, ResourceNameView, ResourceQuerySegmentView, SegmentHeaderView,
    TransformQuerySegmentView, encode_action, encode_key, encode_parameter, encode_parameters,
    encode_query, escape, escape_char, escape_from, file_text, http_text, https_text, is_alpha,
    is_digit, is_plain, name_texts, protocol_text,
};
use crate::text::{has_at, join};
use vstd::prelude::*;

verus! {

// ---------------------------------------------------------------------------
// Texts within texts
// ---------------------------------------------------------------------------
/// A text stands at a place where its two halves stand one after the
/// other.
pub proof fn lemma_has_at_concat(t: Seq<char>, k: int, a: Seq<char>, b: Seq<char>)
    ensures
        has_at(t, k, a + b) <==> has_at(t, k, a) && has_at(t, k + a.len(), b),
{
    if has_at(t, k, a + b) {
        assert(t.subrange(k, k + a.len()) =~= (a + b).subrange(0, a.len() as int));
        assert((a + b).subrange(0, a.len() as int) =~= a);
        assert(t.subrange(k + a.len(), k + a.len() + b.len()) =~= (a + b).subrange(
            a.len() as int,
            (a + b).len() as int,
        ));
        assert((a + b).subrange(a.len() as int, (a + b).len() as int) =~= b);
    }
    if has_at(t, k, a) && has_at(t, k + a.len(), b) {
        assert(t.subrange(k, k + (a + b).len()) =~= t.subrange(k, k + a.len()) + t.subrange(
            k + a.len(),
            k + a.len() + b.len(),
        ));
    }
}

/// A text of one character stands where the character stands.
pub proof fn lemma_has_at_one(t: Seq<char>, k: int, c: char)
    ensures
        has_at(t, k, seq![c]) <==> 0 <= k < t.len() && t[k] == c,
{
    if has_at(t, k, seq![c]) {
        assert(t.subrange(k, k + 1)[0] == c);
    }
    if 0 <= k < t.len() && t[k] == c {
        assert(t.subrange(k, k + 1) =~= seq![c]);
    }
}

/// The characters of a text that stands at a place are those at the place.
pub proof fn lemma_has_at_index(t: Seq<char>, k: int, a: Seq<char>, i: int)
    requires
        has_at(t, k, a),
        0 <= i < a.len(),
    ensures
        t[k + i] == a[i],
{
    assert(t.subrange(k, k + a.len())[i] == a[i]);
}

/// A part of a text stands in the text where it was taken from.
pub proof fn lemma_has_at_subrange(t: Seq<char>, i: int, j: int)
    requires
        0 <= i <= j <= t.len(),
    ensures
        has_at(t, i, t.subrange(i, j)),
{
}

// ---------------------------------------------------------------------------
// Runs
// ---------------------------------------------------------------------------
/// A run ends within the text, holds characters of its class only, and
/// ends at the end of the text or before a character of another class.
pub proof fn lemma_run_end(s: Seq<char>, i: int, class: CharClass)
    requires
        0 <= i <= s.len(),
    ensures
        i <= run_end(s, i, class) <= s.len(),
        forall|j: int| i <= j < run_end(s, i, class) ==> in_class(class, #[trigger] s[j]),
        run_end(s, i, class) == s.len() || !in_class(class, s[run_end(s, i, class)]),
    decreases s.len() - i,
{
    if i < s.len() && in_class(class, s[i]) {
        lemma_run_end(s, i + 1, class);
    }
}

/// A run ends where the characters of its class end.
pub proof fn lemma_run_exact(s: Seq<char>, i: int, j: int, class: CharClass)
    requires
        0 <= i <= j <= s.len(),
        forall|k: int| i <= k < j ==> in_class(class, #[trigger] s[k]),
        j == s.len() || !in_class(class, s[j]),
    ensures
        run_end(s, i, class) == j,
    decreases j - i,
{
    if i < j {
        lemma_run_exact(s, i + 1, j, class);
    }
}

// ---------------------------------------------------------------------------
// Tokens
// ---------------------------------------------------------------------------
/// Whether a character can stand in the text of a string parameter by
/// itself.
pub open spec fn is_token_char(c: char) -> bool {
    is_plain(c) || c == '~' || c == '-' || c == '/' || c == ' '
}

/// Whether `s` can be the text of a string parameter: each character can
/// stand by itself, or is a `:` that `//` follows.
pub open spec fn is_token(s: Seq<char>) -> bool {
    forall|i: int|
        0 <= i < s.len() ==> is_token_char(#[trigger] s[i]) || (s[i] == ':' && i + 2 < s.len()
            && s[i + 1] == '/' && s[i + 2] == '/')
}

/// Whether reading a string parameter stops at `k` at once.
pub open spec fn stops_text(t: Seq<char>, k: int) -> bool {
    parse_text(t, k) == (Seq::<char>::empty(), k)
}

/// The text of a string parameter is one that can be.
pub proof fn lemma_text_is_token(t: Seq<char>, k: int)
    requires
        0 <= k <= t.len(),
    ensures
        is_token(parse_text(t, k).0),
        k <= parse_text(t, k).1 <= t.len(),
        stops_text(t, parse_text(t, k).1),
    decreases t.len() - k,
{
    if k >= t.len() {
    } else if is_plain(t[k]) {
        lemma_text_is_token(t, k + 1);
        lemma_token_after(seq![t[k]], parse_text(t, k + 1).0);
    } else if t[k] == '~' && k + 1 < t.len() && is_digit(t[k + 1]) {
        lemma_text_is_token(t, k + 1);
        lemma_token_after(seq!['-'], parse_text(t, k + 1).0);
    } else if t[k] == '~' && k + 1 < t.len() && unescape(t[k + 1]) is Some {
        lemma_text_is_token(t, k + 2);
        let piece = unescape(t[k + 1])->0;
        assert(is_token(piece));
        lemma_token_after(piece, parse_text(t, k + 2).0);
    } else {
    }
}

/// A text that can be the text of a string parameter can be followed by
/// another.
pub proof fn lemma_token_after(a: Seq<char>, b: Seq<char>)
    requires
        is_token(a),
        is_token(b),
    ensures
        is_token(a + b),
{
    assert forall|i: int| 0 <= i < (a + b).len() implies is_token_char(#[trigger] (a + b)[i]) || ((a
        + b)[i] == ':' && i + 2 < (a + b).len() && (a + b)[i + 1] == '/' && (a + b)[i + 2]
        == '/') by {
        if i < a.len() {
            assert((a + b)[i] == a[i]);
            if !is_token_char(a[i]) {
                assert((a + b)[i + 1] == a[i + 1]);
                assert((a + b)[i + 2] == a[i + 2]);
            }
        } else {
            assert((a + b)[i] == b[i - a.len()]);
            if !is_token_char(b[i - a.len()]) {
                assert((a + b)[i + 1] == b[i - a.len() + 1]);
                assert((a + b)[i + 2] == b[i - a.len() + 2]);
            }
        }
    }
}

/// The escaped form of a token from `i` on, standing at `k` before a place
/// where reading stops, is read as the token from `i` on.
pub proof fn lemma_escape_read(s: Seq<char>, i: int, t: Seq<char>, k: int)
    requires
        is_token(s),
        0 <= i <= s.len(),
        has_at(t, k, escape_from(s, i)),
        stops_text(t, k + escape_from(s, i).len()),
    ensures
        parse_text(t, k) == (s.subrange(i, s.len() as int), k + escape_from(s, i).len()),
    decreases s.len() - i,
{
    if i >= s.len() {
        assert(s.subrange(i, s.len() as int) =~= Seq::<char>::empty());
    } else {
        let pair: Seq<char>;
        let step: int;
        if has_at(s, i, https_text()) {
            pair = seq!['~', 'H'];
            step = 8;
        } else if has_at(s, i, http_text()) {
            pair = seq!['~', 'h'];
            step = 7;
        } else if has_at(s, i, file_text()) {
            pair = seq!['~', 'f'];
            step = 7;
        } else if has_at(s, i, protocol_text()) {
            pair = seq!['~', 'P'];
            step = 3;
        } else {
            pair = escape_char(s[i]);
            step = 1;
            assert(is_token_char(s[i])) by {
                if !is_token_char(s[i]) {
                    assert(s.subrange(i, i + 3) =~= protocol_text());
                }
            }
        }
        let rest = escape_from(s, i + step);
        assert(escape_from(s, i) == pair + rest);
        lemma_has_at_concat(t, k, pair, rest);
        lemma_escape_read(s, i + step, t, k + pair.len());
        lemma_has_at_index(t, k, pair, 0);
        if pair.len() == 2 {
            lemma_has_at_index(t, k, pair, 1);
        }
        assert(s.subrange(i, s.len() as int) =~= s.subrange(i, i + step) + s.subrange(
            i + step,
            s.len() as int,
        ));
    }
}

// ---------------------------------------------------------------------------
// Trees without positions
// ---------------------------------------------------------------------------
pub open spec fn bare_parameter(p: ActionParameterView) -> ActionParameterView
    decreases p,
{
    match p {
        ActionParameterView::String(s, _) => ActionParameterView::String(
            s,
            Position::spec_unknown(),
        ),
        ActionParameterView::Link(q, _) => ActionParameterView::Link(
            bare_query(q),
            Position::spec_unknown(),
        ),
    }
}

pub open spec fn bare_parameters(ps: Seq<ActionParameterView>) -> Seq<ActionParameterView>
    decreases ps,
{
    Seq::new(
        ps.len(),
        |i: int|
            if 0 <= i < ps.len() {
                bare_parameter(ps[i])
            } else {
                arbitrary()
            },
    )
}

pub open spec fn bare_action(a: ActionRequestView) -> ActionRequestView
    decreases a,
{
    ActionRequestView {
        name: a.name,
        parameters: bare_parameters(a.parameters),
        position: Position::spec_unknown(),
    }
}

pub open spec fn bare_actions(actions: Seq<ActionRequestView>) -> Seq<ActionRequestView>
    decreases actions,
{
    Seq::new(
        actions.len(),
        |i: int|
            if 0 <= i < actions.len() {
                bare_action(actions[i])
            } else {
                arbitrary()
            },
    )
}

pub open spec fn bare_name(n: ResourceNameView) -> ResourceNameView {
    ResourceNameView { name: n.name, position: Position::spec_unknown() }
}

pub open spec fn bare_names(names: Seq<ResourceNameView>) -> Seq<ResourceNameView> {
    Seq::new(names.len(), |i: int| bare_name(names[i]))
}

pub open spec fn bare_option_name(n: Option<ResourceNameView>) -> Option<ResourceNameView> {
    match n {
        Some(n) => Some(bare_name(n)),
        None => None,
    }
}

pub open spec fn bare_header_parameters(ps: Seq<HeaderParameterView>) -> Seq<HeaderParameterView> {
    Seq::new(
        ps.len(),
        |i: int| HeaderParameterView { value: ps[i].value, position: Position::spec_unknown() },
    )
}

pub open spec fn bare_header(h: SegmentHeaderView) -> SegmentHeaderView {
    SegmentHeaderView {
        name: h.name,
        level: h.level,
        parameters: bare_header_parameters(h.parameters),
        resource: h.resource,
        position: Position::spec_unknown(),
    }
}

pub open spec fn bare_option_header(h: Option<SegmentHeaderView>) -> Option<SegmentHeaderView> {
    match h {
        Some(h) => Some(bare_header(h)),
        None => None,
    }
}

pub open spec fn bare_transform(t: TransformQuerySegmentView) -> TransformQuerySegmentView
    decreases t,
{
    TransformQuerySegmentView {
        header: bare_option_header(t.header),
        query: bare_actions(t.query),
        filename: bare_option_name(t.filename),
    }
}

pub open spec fn bare_resource(r: ResourceQuerySegmentView) -> ResourceQuerySegmentView {
    ResourceQuerySegmentView { header: bare_option_header(r.header), key: bare_names(r.key) }
}

pub open spec fn bare_segment(s: QuerySegmentView) -> QuerySegmentView
    decreases s,
{
    match s {
        QuerySegmentView::Resource(r) => QuerySegmentView::Resource(bare_resource(r)),
        QuerySegmentView::Transform(t) => QuerySegmentView::Transform(bare_transform(t)),
    }
}

pub open spec fn bare_segments(segments: Seq<QuerySegmentView>) -> Seq<QuerySegmentView>
    decreases segments,
{
    Seq::new(
        segments.len(),
        |i: int|
            if 0 <= i < segments.len() {
                bare_segment(segments[i])
            } else {
                arbitrary()
            },
    )
}

/// The query with every position forgotten. Two queries are the same but
/// for positions where their bare forms are equal.
pub open spec fn bare_query(q: QueryView) -> QueryView
    decreases q,
{
    QueryView { segments: bare_segments(q.segments), absolute: q.absolute }
}

// ---------------------------------------------------------------------------
// The trees that the grammar gives
// ---------------------------------------------------------------------------
/// An identifier: a letter or `_`, then letters, digits and `_`.
pub open spec fn is_identifier(s: Seq<char>) -> bool {
    &&& s.len() > 0
    &&& is_alpha(s[0]) || s[0] == '_'
    &&& forall|i: int| 0 <= i < s.len() ==> in_class(CharClass::Word, #[trigger] s[i])
}

/// A text of characters of one class.
pub open spec fn is_run(s: Seq<char>, class: CharClass) -> bool {
    forall|i: int| 0 <= i < s.len() ==> in_class(class, #[trigger] s[i])
}

/// The name of a resource: name characters, at least one, the first not a
/// hyphen.
pub open spec fn is_resource_name(s: Seq<char>) -> bool {
    s.len() > 0 && s[0] != '-' && is_run(s, CharClass::Name)
}

/// A filename: an identifier, a `.`, and name characters, at least one.
pub open spec fn is_filename(s: Seq<char>) -> bool {
    let dot = run_end(s, 0, CharClass::Word);
    &&& 0 < dot < s.len() - 1
    &&& is_alpha(s[0]) || s[0] == '_'
    &&& s[dot] == '.'
    &&& forall|i: int| dot < i < s.len() ==> in_class(CharClass::Name, #[trigger] s[i])
}

pub open spec fn wf_parameter(p: ActionParameterView) -> bool
    decreases p, 0int,
{
    match p {
        ActionParameterView::String(s, _) => is_token(s),
        ActionParameterView::Link(q, _) => wf_query(q),
    }
}

pub open spec fn wf_parameters(ps: Seq<ActionParameterView>) -> bool
    decreases ps, 0int,
{
    forall|i: int| 0 <= i < ps.len() ==> wf_parameter(#[trigger] ps[i])
}

pub open spec fn wf_action(a: ActionRequestView) -> bool
    decreases a, 0int,
{
    is_identifier(a.name) && wf_parameters(a.parameters)
}

pub open spec fn wf_actions(actions: Seq<ActionRequestView>) -> bool
    decreases actions, 0int,
{
    forall|i: int| 0 <= i < actions.len() ==> wf_action(#[trigger] actions[i])
}

/// The steps of a transform segment: actions, at least one, and a
/// filename or none.
pub open spec fn wf_steps(actions: Seq<ActionRequestView>, filename: Option<ResourceNameView>)
    -> bool
    decreases actions, 1int,
{
    actions.len() > 0 && wf_actions(actions) && (filename is Some ==> is_filename(
        filename->0.name,
    ))
}

pub open spec fn wf_names(names: Seq<ResourceNameView>) -> bool {
    forall|i: int| 0 <= i < names.len() ==> is_resource_name((#[trigger] names[i]).name)
}

pub open spec fn wf_header_parameters(ps: Seq<HeaderParameterView>) -> bool {
    forall|i: int| 0 <= i < ps.len() ==> is_run((#[trigger] ps[i]).value, CharClass::HeaderValue)
}

pub open spec fn wf_resource_header(h: SegmentHeaderView) -> bool {
    h.resource && is_run(h.name, CharClass::Word) && wf_header_parameters(h.parameters)
}

/// The header of a transform segment: without a name it has no
/// parameters; a name begins with a small letter.
pub open spec fn wf_transform_header(h: SegmentHeaderView) -> bool {
    &&& !h.resource
    &&& wf_header_parameters(h.parameters)
    &&& is_run(h.name, CharClass::Word)
    &&& if h.name.len() == 0 {
        h.parameters.len() == 0
    } else {
        crate::parse::is_lower(h.name[0])
    }
}

pub open spec fn wf_headed_transform(t: TransformQuerySegmentView) -> bool
    decreases t, 0int,
{
    t.header is Some && wf_transform_header(t.header->0) && wf_steps(t.query, t.filename)
}

/// A segment with a header.
pub open spec fn wf_segment(s: QuerySegmentView) -> bool
    decreases s, 0int,
{
    match s {
        QuerySegmentView::Resource(r) => r.header is Some && wf_resource_header(r.header->0)
            && wf_names(r.key),
        QuerySegmentView::Transform(t) => wf_headed_transform(t),
    }
}

pub open spec fn wf_segments(segments: Seq<QuerySegmentView>) -> bool
    decreases segments, 0int,
{
    forall|i: int| 0 <= i < segments.len() ==> wf_segment(#[trigger] segments[i])
}

/// A chain of actions without a header.
pub open spec fn is_plain_transform(q: QueryView) -> bool
    decreases q, 0int,
{
    &&& q.segments.len() == 1
    &&& q.segments[0] is Transform
    &&& q.segments[0]->Transform_0.header is None
    &&& wf_steps(q.segments[0]->Transform_0.query, q.segments[0]->Transform_0.filename)
}

/// A path without a header and a transform segment with one.
pub open spec fn is_resource_transform(q: QueryView) -> bool
    decreases q, 0int,
{
    &&& q.segments.len() == 2
    &&& q.segments[0] is Resource
    &&& q.segments[0]->Resource_0.header is None
    &&& q.segments[0]->Resource_0.key.len() > 0
    &&& wf_names(q.segments[0]->Resource_0.key)
    &&& q.segments[1] is Transform
    &&& wf_headed_transform(q.segments[1]->Transform_0)
}

/// Segments with headers, at least one.
pub open spec fn is_general(q: QueryView) -> bool
    decreases q, 0int,
{
    q.segments.len() > 0 && wf_segments(q.segments)
}

/// Whether the query is of one of the forms that the grammar gives.
pub open spec fn wf_query(q: QueryView) -> bool
    decreases q, 1int,
{
    is_plain_transform(q) || is_resource_transform(q) || is_general(q) || q.segments.len() == 0
}

// ---------------------------------------------------------------------------
// Lists in text
// ---------------------------------------------------------------------------
/// The parts from `from` on, each after a separator.
pub open spec fn tail(parts: Seq<Seq<char>>, from: int, sep: Seq<char>) -> Seq<char>
    decreases parts.len() - from,
{
    if from < 0 || from >= parts.len() {
        Seq::empty()
    } else {
        sep + parts[from] + tail(parts, from + 1, sep)
    }
}

/// Without its first part, the tail of a list of parts begins one place
/// earlier.
pub proof fn lemma_tail_shift(parts: Seq<Seq<char>>, from: int, sep: Seq<char>)
    requires
        0 <= from,
        parts.len() > 0,
    ensures
        tail(parts.drop_first(), from, sep) == tail(parts, from + 1, sep),
    decreases parts.len() - from,
{
    if from < parts.len() - 1 {
        lemma_tail_shift(parts, from + 1, sep);
        assert(parts.drop_first()[from] == parts[from + 1]);
    }
}

/// Parts joined by a separator are the first part and then each further
/// part after a separator.
pub proof fn lemma_join_tail(parts: Seq<Seq<char>>, sep: Seq<char>)
    requires
        parts.len() > 0,
    ensures
        join(parts, sep) == parts[0] + tail(parts, 1, sep),
    decreases parts.len(),
{
    if parts.len() == 1 {
        assert(parts[0] + tail(parts, 1, sep) =~= parts[0]);
    } else {
        let rest = parts.drop_first();
        lemma_join_tail(rest, sep);
        lemma_tail_shift(parts, 1, sep);
        assert(rest[0] == parts[1]);
        assert(join(parts, sep) =~= parts[0] + tail(parts, 1, sep));
    }
}

// ---------------------------------------------------------------------------
// Keys
// ---------------------------------------------------------------------------
/// Whether the names of a path end at `e`: no name follows, and no name
/// character.
pub open spec fn ends_names(t: Seq<char>, e: int) -> bool {
    &&& 0 <= e <= t.len()
    &&& e == t.len() || !in_class(CharClass::Name, t[e])
    &&& parse_more_names(t, e) == (Seq::<ResourceNameView>::empty(), e)
}

/// A name that stands at `k` before a character that is none of a name is
/// read as it stands.
pub proof fn lemma_name_read(name: Seq<char>, t: Seq<char>, k: int)
    requires
        is_resource_name(name),
        has_at(t, k, name),
        k + name.len() == t.len() || !in_class(CharClass::Name, t[k + name.len()]),
    ensures
        parse_name(t, k) == Some(
            (
                ResourceNameView { name, position: crate::parse::position_at(k) },
                k + name.len(),
            ),
        ),
{
    assert forall|j: int| k <= j < k + name.len() implies in_class(
        CharClass::Name,
        #[trigger] t[j],
    ) by {
        lemma_has_at_index(t, k, name, j - k);
    }
    lemma_run_exact(t, k, k + name.len(), CharClass::Name);
    lemma_has_at_index(t, k, name, 0);
}

/// The names from `from` on, each after a `/`, are read as they stand.
pub proof fn lemma_more_names_read(names: Seq<ResourceNameView>, from: int, t: Seq<char>, k: int)
    requires
        wf_names(names),
        0 <= from <= names.len(),
        has_at(t, k, tail(name_texts(names), from, seq!['/'])),
        ends_names(t, k + tail(name_texts(names), from, seq!['/']).len()),
    ensures
        parse_more_names(t, k).1 == k + tail(name_texts(names), from, seq!['/']).len(),
        bare_names(parse_more_names(t, k).0) == bare_names(
            names.subrange(from, names.len() as int),
        ),
    decreases names.len() - from,
{
    let texts = name_texts(names);
    if from >= names.len() {
        assert(bare_names(names.subrange(from, names.len() as int)) =~= bare_names(
            Seq::<ResourceNameView>::empty(),
        ));
    } else {
        let name = names[from].name;
        let rest = tail(texts, from + 1, seq!['/']);
        assert(tail(texts, from, seq!['/']) == seq!['/'] + name + rest);
        lemma_has_at_concat(t, k, seq!['/'] + name, rest);
        lemma_has_at_concat(t, k, seq!['/'], name);
        lemma_has_at_one(t, k, '/');
        let after = k + 1 + name.len();
        // what follows the name is no name character
        if rest.len() == 0 {
        } else {
            assert(rest == seq!['/'] + texts[from + 1] + tail(texts, from + 2, seq!['/']));
            lemma_has_at_index(t, after, rest, 0);
        }
        lemma_name_read(name, t, k + 1);
        lemma_more_names_read(names, from + 1, t, after);
        let read = parse_more_names(t, k).0;
        let later = parse_more_names(t, after).0;
        assert(read == seq![
            ResourceNameView { name, position: crate::parse::position_at(k + 1) },
        ] + later);
        assert(names.subrange(from, names.len() as int) =~= seq![names[from]] + names.subrange(
            from + 1,
            names.len() as int,
        ));
        assert(bare_names(read) =~= bare_names(names.subrange(from, names.len() as int))) by {
            let wanted = names.subrange(from, names.len() as int);
            assert(bare_names(later) == bare_names(names.subrange(from + 1, names.len() as int)));
            assert(read.len() == wanted.len()) by {
                assert(bare_names(later).len() == later.len());
            }
            assert forall|i: int| 0 <= i < read.len() implies bare_names(read)[i] == bare_names(
                wanted,
            )[i] by {
                if i > 0 {
                    assert(read[i] == later[i - 1]);
                    assert(bare_names(later)[i - 1] == bare_names(
                        names.subrange(from + 1, names.len() as int),
                    )[i - 1]);
                }
            }
        }
    }
}

/// A path that stands at `k` before a place where names end is read as it
/// stands.
pub proof fn lemma_path_read(names: Seq<ResourceNameView>, t: Seq<char>, k: int)
    requires
        wf_names(names),
        names.len() > 0,
        has_at(t, k, encode_key(names)),
        ends_names(t, k + encode_key(names).len()),
    ensures
        parse_path(t, k).1 == k + encode_key(names).len(),
        bare_names(parse_path(t, k).0) == bare_names(names),
{
    let texts = name_texts(names);
    lemma_join_tail(texts, seq!['/']);
    let name = names[0].name;
    let rest = tail(texts, 1, seq!['/']);
    lemma_has_at_concat(t, k, name, rest);
    let after = k + name.len();
    if rest.len() == 0 {
    } else {
        assert(rest == seq!['/'] + texts[1] + tail(texts, 2, seq!['/']));
        lemma_has_at_index(t, after, rest, 0);
    }
    lemma_name_read(name, t, k);
    lemma_more_names_read(names, 1, t, after);
    let read = parse_path(t, k).0;
    let later = parse_more_names(t, after).0;
    assert(read == seq![ResourceNameView { name, position: crate::parse::position_at(k) }]
        + later);
    let wanted_later = names.subrange(1, names.len() as int);
    assert(bare_names(read) =~= bare_names(names)) by {
        assert(bare_names(later).len() == later.len());
        assert(bare_names(wanted_later).len() == wanted_later.len());
        assert forall|i: int| 0 <= i < read.len() implies bare_names(read)[i] == bare_names(
            names,
        )[i] by {
            if i > 0 {
                assert(read[i] == later[i - 1]);
                assert(bare_names(later)[i - 1] == bare_names(wanted_later)[i - 1]);
                assert(wanted_later[i - 1] == names[i]);
            }
        }
    }
}

/// The names that are read from a text are names of resources.
pub proof fn lemma_more_names_wf(t: Seq<char>, k: int)
    requires
        0 <= k <= t.len(),
    ensures
        wf_names(parse_more_names(t, k).0),
        k <= parse_more_names(t, k).1 <= t.len(),
    decreases t.len() - k,
{
    if k < t.len() && t[k] == '/' {
        lemma_run_end(t, k + 1, CharClass::Name);
        match parse_name(t, k + 1) {
            Some((name, next)) => {
                lemma_more_names_wf(t, next);
                let rest = parse_more_names(t, next).0;
                let all = seq![name] + rest;
                assert forall|i: int| 0 <= i < all.len() implies is_resource_name(
                    (#[trigger] all[i]).name,
                ) by {
                    if i > 0 {
                        assert(all[i] == rest[i - 1]);
                    }
                }
            },
            None => {},
        }
    }
}

/// The names that are read as a path are resource names, and reading
/// them ends within the text.
pub proof fn lemma_path_wf(t: Seq<char>, k: int)
    requires
        0 <= k <= t.len(),
    ensures
        wf_names(parse_path(t, k).0),
        k <= parse_path(t, k).1 <= t.len(),
{
    lemma_run_end(t, k, CharClass::Name);
    match parse_name(t, k) {
        Some((name, next)) => {
            lemma_more_names_wf(t, next);
            let rest = parse_more_names(t, next).0;
            let all = seq![name] + rest;
            assert forall|i: int| 0 <= i < all.len() implies is_resource_name(
                (#[trigger] all[i]).name,
            ) by {
                if i > 0 {
                    assert(all[i] == rest[i - 1]);
                }
            }
        },
        None => {},
    }
}

/// Whether every name of the key is the name of a resource.
pub open spec fn wf_key(key: Seq<ResourceNameView>) -> bool {
    wf_names(key)
}

/// The text of a key is read back as the key: for every key of names of
/// resources, reading its text gives a key of the same names.
pub proof fn lemma_key_roundtrip(key: Seq<ResourceNameView>)
    requires
        wf_key(key),
    ensures
        parse_key_text(encode_key(key)) is Some,
        name_texts(parse_key_text(encode_key(key))->0) == name_texts(key),
{
    let t = encode_key(key);
    if key.len() == 0 {
        assert(t.len() == 0);
        assert(parse_path(t, 0).0 =~= Seq::<ResourceNameView>::empty());
        assert(name_texts(parse_path(t, 0).0) =~= name_texts(key));
    } else {
        lemma_has_at_subrange(t, 0, t.len() as int);
        assert(t.subrange(0, t.len() as int) =~= t);
        lemma_path_read(key, t, 0);
        let read = parse_path(t, 0).0;
        assert(name_texts(read) =~= name_texts(key)) by {
            assert(bare_names(read).len() == read.len());
            assert(bare_names(key).len() == key.len());
            assert forall|i: int| 0 <= i < read.len() implies name_texts(read)[i] == name_texts(
                key,
            )[i] by {
                assert(bare_names(read)[i] == bare_names(key)[i]);
            }
        }
    }
}

/// The key that a text is read as has names of resources, so that its text
/// is read back as the same key.
pub proof fn lemma_parsed_key_is_wf(s: Seq<char>)
    requires
        parse_key_text(s) is Some,
    ensures
        wf_key(parse_key_text(s)->0),
{
    lemma_path_wf(s, 0);
}

// ---------------------------------------------------------------------------
// Where things end
// ---------------------------------------------------------------------------
/// Where a parameter may end: at the end of the text, before the hyphen of
/// the next parameter, before the `/` of the next step, or before the mark
/// that closes a link.
pub open spec fn ends_parameter(t: Seq<char>, j: int) -> bool {
    &&& 0 <= j <= t.len()
    &&& j == t.len() || t[j] == '-' || t[j] == '/' || has_at(t, j, link_close())
}

/// Where a step may end: where a parameter may end, but for the hyphen.
pub open spec fn ends_step(t: Seq<char>, j: int) -> bool {
    &&& 0 <= j <= t.len()
    &&& j == t.len() || t[j] == '/' || has_at(t, j, link_close())
}

/// Where a segment may end: at the end of the text, before the mark that
/// closes a link, or before the `/` and the hyphen of the next segment.
pub open spec fn ends_segment(t: Seq<char>, j: int) -> bool {
    &&& 0 <= j <= t.len()
    &&& j == t.len() || has_at(t, j, link_close()) || (j + 1 < t.len() && t[j] == '/' && t[j
        + 1] == '-')
}

/// Where a link closes, the text holds `~E`.
pub proof fn lemma_close_mark(t: Seq<char>, j: int)
    requires
        has_at(t, j, link_close()),
    ensures
        0 <= j,
        j + 1 < t.len(),
        t[j] == '~',
        t[j + 1] == 'E',
{
    lemma_has_at_index(t, j, link_close(), 0);
    lemma_has_at_index(t, j, link_close(), 1);
}

/// Where a parameter may end, reading a string parameter stops, and no
/// link opens.
pub proof fn lemma_ends_parameter(t: Seq<char>, j: int)
    requires
        ends_parameter(t, j),
    ensures
        stops_text(t, j),
        !has_at(t, j, link_open()),
{
    if has_at(t, j, link_close()) {
        lemma_close_mark(t, j);
    }
    if has_at(t, j, link_open()) {
        lemma_has_at_index(t, j, link_open(), 0);
        lemma_has_at_index(t, j, link_open(), 1);
    }
}

/// What an escaped token begins with: no link opens at its start.
pub proof fn lemma_escape_opens_no_link(s: Seq<char>, t: Seq<char>, k: int)
    requires
        is_token(s),
        s.len() > 0,
        has_at(t, k, escape(s)),
    ensures
        !has_at(t, k, link_open()),
        escape(s).len() > 0,
{
    let pair: Seq<char>;
    let step: int;
    if has_at(s, 0, https_text()) {
        pair = seq!['~', 'H'];
        step = 8;
    } else if has_at(s, 0, http_text()) {
        pair = seq!['~', 'h'];
        step = 7;
    } else if has_at(s, 0, file_text()) {
        pair = seq!['~', 'f'];
        step = 7;
    } else if has_at(s, 0, protocol_text()) {
        pair = seq!['~', 'P'];
        step = 3;
    } else {
        pair = escape_char(s[0]);
        step = 1;
    }
    let rest = escape_from(s, step);
    assert(escape(s) == pair + rest);
    lemma_has_at_concat(t, k, pair, rest);
    lemma_has_at_index(t, k, pair, 0);
    if pair.len() == 2 {
        lemma_has_at_index(t, k, pair, 1);
    }
    if has_at(t, k, link_open()) {
        lemma_has_at_index(t, k, link_open(), 0);
        lemma_has_at_index(t, k, link_open(), 1);
        if pair.len() == 1 {
            assert(is_token_char(s[0])) by {
                if !is_token_char(s[0]) {
                    assert(s.subrange(0, 3) =~= protocol_text());
                }
            }
        }
    }
}

// ---------------------------------------------------------------------------
// Texts of the parts of a query
// ---------------------------------------------------------------------------
/// The text of the steps of a transform segment from action `from` on.
pub open spec fn steps_text(
    actions: Seq<ActionRequestView>,
    from: int,
    filename: Option<ResourceNameView>,
) -> Seq<char>
    decreases actions.len() - from,
{
    if from < 0 || from >= actions.len() {
        Seq::empty()
    } else if from == actions.len() - 1 {
        encode_action(actions[from]) + match filename {
            Some(f) => seq!['/'] + f.name,
            None => Seq::empty(),
        }
    } else {
        encode_action(actions[from]) + seq!['/'] + steps_text(actions, from + 1, filename)
    }
}

/// The text of an action is its name and then each parameter after a
/// hyphen.
pub proof fn lemma_action_text(a: ActionRequestView)
    ensures
        encode_action(a) == a.name + tail(encode_parameters(a.parameters), 0, seq!['-']),
{
    let parts = encode_parameters(a.parameters);
    if a.parameters.len() == 0 {
        assert(a.name + tail(parts, 0, seq!['-']) =~= a.name);
    } else {
        lemma_join_tail(parts, seq!['-']);
        assert(a.name + seq!['-'] + join(parts, seq!['-']) =~= a.name + tail(
            parts,
            0,
            seq!['-'],
        ));
    }
}

/// The text of an action begins with its name, which is not empty.
pub proof fn lemma_action_begins(a: ActionRequestView, t: Seq<char>, k: int)
    requires
        is_identifier(a.name),
        has_at(t, k, encode_action(a)),
    ensures
        has_at(t, k, a.name),
        encode_action(a).len() >= a.name.len(),
        0 <= k < t.len(),
        is_alpha(t[k]) || t[k] == '_',
{
    lemma_action_text(a);
    lemma_has_at_concat(t, k, a.name, tail(encode_parameters(a.parameters), 0, seq!['-']));
    lemma_has_at_index(t, k, a.name, 0);
}

// ---------------------------------------------------------------------------
// Reading what was written
// ---------------------------------------------------------------------------
/// A parameter that stands at `k` before a place where a parameter may end
/// is read as it stands.
pub proof fn lemma_parameter_read(p: ActionParameterView, t: Seq<char>, k: int)
    requires
        wf_parameter(p),
        has_at(t, k, encode_parameter(p)),
        ends_parameter(t, k + encode_parameter(p).len()),
    ensures
        parse_parameter(t, k) is Some,
        (parse_parameter(t, k)->0).1 == k + encode_parameter(p).len(),
        bare_parameter((parse_parameter(t, k)->0).0) == bare_parameter(p),
    decreases p, 0int,
{
    match p {
        ActionParameterView::String(s, _) => {
            let end = k + escape(s).len();
            lemma_ends_parameter(t, end);
            lemma_escape_read(s, 0, t, k);
            assert(s.subrange(0, s.len() as int) =~= s);
            if s.len() > 0 {
                lemma_escape_opens_no_link(s, t, k);
            } else {
                assert(escape(s).len() == 0);
            }
        },
        ActionParameterView::Link(q, _) => {
            let inner = encode_query(q);
            assert(encode_parameter(p) == link_open() + inner + link_close());
            lemma_has_at_concat(t, k, link_open() + inner, link_close());
            lemma_has_at_concat(t, k, link_open(), inner);
            lemma_query_read(q, t, k + 3, true);
        },
    }
}

/// The parameters from `from` on, each after a hyphen, are read as they
/// stand.
pub proof fn lemma_parameters_read(
    ps: Seq<ActionParameterView>,
    from: int,
    t: Seq<char>,
    k: int,
)
    requires
        wf_parameters(ps),
        0 <= from <= ps.len(),
        has_at(t, k, tail(encode_parameters(ps), from, seq!['-'])),
        ends_step(t, k + tail(encode_parameters(ps), from, seq!['-']).len()),
    ensures
        parse_parameters(t, k) is Some,
        (parse_parameters(t, k)->0).1 == k + tail(encode_parameters(ps), from, seq!['-']).len(),
        bare_parameters((parse_parameters(t, k)->0).0) == bare_parameters(
            ps.subrange(from, ps.len() as int),
        ),
    decreases ps, ps.len() - from,
{
    let parts = encode_parameters(ps);
    let text = tail(parts, from, seq!['-']);
    if from >= ps.len() {
        if has_at(t, k, link_close()) {
            lemma_close_mark(t, k);
        }
        assert(bare_parameters(ps.subrange(from, ps.len() as int)) =~= Seq::empty());
        assert(bare_parameters(Seq::<ActionParameterView>::empty()) =~= Seq::empty());
    } else {
        let p = ps[from];
        let rest = tail(parts, from + 1, seq!['-']);
        assert(parts[from] == encode_parameter(p));
        assert(text == seq!['-'] + encode_parameter(p) + rest);
        lemma_has_at_concat(t, k, seq!['-'] + encode_parameter(p), rest);
        lemma_has_at_concat(t, k, seq!['-'], encode_parameter(p));
        lemma_has_at_one(t, k, '-');
        let after = k + 1 + encode_parameter(p).len();
        if from + 1 < ps.len() {
            assert(rest == seq!['-'] + parts[from + 1] + tail(parts, from + 2, seq!['-']));
            lemma_has_at_index(t, after, rest, 0);
        } else {
            assert(rest.len() == 0);
        }
        lemma_parameter_read(p, t, k + 1);
        lemma_parameters_read(ps, from + 1, t, after);
        let first = (parse_parameter(t, k + 1)->0).0;
        let later = (parse_parameters(t, after)->0).0;
        let read = (parse_parameters(t, k)->0).0;
        assert(read == seq![first] + later);
        let wanted = ps.subrange(from, ps.len() as int);
        let wanted_later = ps.subrange(from + 1, ps.len() as int);
        assert(bare_parameters(read) =~= bare_parameters(wanted)) by {
            assert(bare_parameters(later).len() == later.len());
            assert(bare_parameters(wanted_later).len() == wanted_later.len());
            assert forall|i: int| 0 <= i < read.len() implies bare_parameters(read)[i]
                == bare_parameters(wanted)[i] by {
                if i > 0 {
                    assert(read[i] == later[i - 1]);
                    assert(bare_parameters(later)[i - 1] == bare_parameters(wanted_later)[i
                        - 1]);
                    assert(wanted_later[i - 1] == wanted[i]);
                } else {
                    assert(wanted[0] == p);
                }
            }
        }
    }
}

/// An action that stands at `k` before a place where a step may end is
/// read as it stands, and is not read as a filename.
pub proof fn lemma_action_read(a: ActionRequestView, t: Seq<char>, k: int)
    requires
        wf_action(a),
        has_at(t, k, encode_action(a)),
        ends_step(t, k + encode_action(a).len()),
    ensures
        parse_action(t, k) is Some,
        (parse_action(t, k)->0).1 == k + encode_action(a).len(),
        bare_action((parse_action(t, k)->0).0) == bare_action(a),
        parse_filename(t, k) is None,
        identifier_end(t, k) is Some,
    decreases a, 0int,
{
    let parts = encode_parameters(a.parameters);
    let params = tail(parts, 0, seq!['-']);
    lemma_action_text(a);
    lemma_has_at_concat(t, k, a.name, params);
    let name_end = k + a.name.len();
    lemma_has_at_index(t, k, a.name, 0);
    assert forall|j: int| k + 1 <= j < name_end implies in_class(
        CharClass::Word,
        #[trigger] t[j],
    ) by {
        lemma_has_at_index(t, k, a.name, j - k);
    }
    // after the name stands a hyphen or what ends the step
    if a.parameters.len() > 0 {
        assert(params == seq!['-'] + parts[0] + tail(parts, 1, seq!['-']));
        lemma_has_at_index(t, name_end, params, 0);
    } else {
        assert(params.len() == 0);
        if has_at(t, name_end, link_close()) {
            lemma_close_mark(t, name_end);
        }
    }
    lemma_run_exact(t, k + 1, name_end, CharClass::Word);
    lemma_parameters_read(a.parameters, 0, t, name_end);
    assert(t.subrange(k, name_end) == a.name);
    assert(a.parameters.subrange(0, a.parameters.len() as int) =~= a.parameters);
}

/// A filename that stands at `k` before a character that is none of a name
/// is read as it stands.
pub proof fn lemma_filename_read(f: Seq<char>, t: Seq<char>, k: int)
    requires
        is_filename(f),
        has_at(t, k, f),
        k + f.len() == t.len() || !in_class(CharClass::Name, t[k + f.len()]),
    ensures
        parse_filename(t, k) == Some(
            (
                ResourceNameView { name: f, position: crate::parse::position_at(k) },
                k + f.len(),
            ),
        ),
{
    let dot = run_end(f, 0, CharClass::Word);
    lemma_run_end(f, 0, CharClass::Word);
    lemma_has_at_index(t, k, f, 0);
    lemma_has_at_index(t, k, f, dot);
    assert forall|j: int| k + 1 <= j < k + dot implies in_class(
        CharClass::Word,
        #[trigger] t[j],
    ) by {
        lemma_has_at_index(t, k, f, j - k);
        assert(in_class(CharClass::Word, f[j - k]));
    }
    lemma_run_exact(t, k + 1, k + dot, CharClass::Word);
    assert forall|j: int| k + dot + 1 <= j < k + f.len() implies in_class(
        CharClass::Name,
        #[trigger] t[j],
    ) by {
        lemma_has_at_index(t, k, f, j - k);
    }
    lemma_run_exact(t, k + dot + 1, k + f.len(), CharClass::Name);
    assert(t.subrange(k, k + f.len()) == f);
}

/// The steps from action `from` on that stand at `k` before a place where
/// a segment may end are read as they stand.
pub proof fn lemma_steps_read(
    actions: Seq<ActionRequestView>,
    from: int,
    filename: Option<ResourceNameView>,
    t: Seq<char>,
    k: int,
)
    requires
        wf_actions(actions),
        filename is Some ==> is_filename(filename->0.name),
        0 <= from < actions.len(),
        has_at(t, k, steps_text(actions, from, filename)),
        ends_segment(t, k + steps_text(actions, from, filename).len()),
    ensures
        parse_steps(t, k) is Some,
        (parse_steps(t, k)->0).2 == k + steps_text(actions, from, filename).len(),
        bare_actions((parse_steps(t, k)->0).0) == bare_actions(
            actions.subrange(from, actions.len() as int),
        ),
        bare_option_name((parse_steps(t, k)->0).1) == bare_option_name(filename),
        parse_filename(t, k) is None,
        identifier_end(t, k) is Some,
    decreases actions, actions.len() - from,
{
    let a = actions[from];
    let text = steps_text(actions, from, filename);
    let end = k + text.len();
    let next = k + encode_action(a).len();
    let wanted = actions.subrange(from, actions.len() as int);
    if has_at(t, end, link_close()) {
        lemma_close_mark(t, end);
    }
    if from == actions.len() - 1 {
        match filename {
            Some(f) => {
                assert(text == encode_action(a) + (seq!['/'] + f.name));
                lemma_has_at_concat(t, k, encode_action(a), seq!['/'] + f.name);
                lemma_has_at_concat(t, next, seq!['/'], f.name);
                lemma_has_at_one(t, next, '/');
                lemma_action_read(a, t, k);
                lemma_filename_read(f.name, t, next + 1);
            },
            None => {
                assert(text =~= encode_action(a));
                lemma_action_read(a, t, k);
                if next < t.len() && t[next] == '/' {
                    assert(t[next + 1] == '-');
                }
            },
        }
        let read = (parse_steps(t, k)->0).0;
        assert(read == seq![(parse_action(t, k)->0).0]);
        assert(bare_actions(read) =~= bare_actions(wanted)) by {
            assert(wanted[0] == a);
        }
    } else {
        let rest = steps_text(actions, from + 1, filename);
        assert(text == encode_action(a) + seq!['/'] + rest);
        lemma_has_at_concat(t, k, encode_action(a) + seq!['/'], rest);
        lemma_has_at_concat(t, k, encode_action(a), seq!['/']);
        lemma_has_at_one(t, next, '/');
        lemma_action_read(a, t, k);
        lemma_steps_read(actions, from + 1, filename, t, next + 1);
        let first = (parse_action(t, k)->0).0;
        let later = (parse_steps(t, next + 1)->0).0;
        let read = (parse_steps(t, k)->0).0;
        assert(read == seq![first] + later);
        let wanted_later = actions.subrange(from + 1, actions.len() as int);
        assert(bare_actions(read) =~= bare_actions(wanted)) by {
            assert(bare_actions(later).len() == later.len());
            assert(bare_actions(wanted_later).len() == wanted_later.len());
            assert forall|i: int| 0 <= i < read.len() implies bare_actions(read)[i]
                == bare_actions(wanted)[i] by {
                if i > 0 {
                    assert(read[i] == later[i - 1]);
                    assert(bare_actions(later)[i - 1] == bare_actions(wanted_later)[i - 1]);
                    assert(wanted_later[i - 1] == wanted[i]);
                } else {
                    assert(wanted[0] == a);
                }
            }
        }
    }
}

// ---------------------------------------------------------------------------
// Headers
// ---------------------------------------------------------------------------
/// The values of the parameters of a header.
pub open spec fn header_values(ps: Seq<HeaderParameterView>) -> Seq<Seq<char>> {
    Seq::new(ps.len(), |i: int| ps[i].value)
}

/// One more part at the end of a list adds a separator and the part to
/// the text of the list from any place on.
pub proof fn lemma_tail_push(parts: Seq<Seq<char>>, last: Seq<char>, from: int, sep: Seq<char>)
    requires
        0 <= from <= parts.len(),
    ensures
        tail(parts.push(last), from, sep) == tail(parts, from, sep) + sep + last,
    decreases parts.len() - from,
{
    let all = parts.push(last);
    if from == parts.len() {
        assert(all[from] == last);
        assert(tail(all, from + 1, sep) =~= Seq::<char>::empty());
        assert(tail(all, from, sep) =~= tail(parts, from, sep) + sep + last);
    } else {
        lemma_tail_push(parts, last, from + 1, sep);
        assert(all[from] == parts[from]);
        assert(tail(all, from, sep) =~= tail(parts, from, sep) + sep + last);
    }
}

/// The text of the parameters of a header is each value after a hyphen.
pub proof fn lemma_header_parameters_text(ps: Seq<HeaderParameterView>)
    ensures
        crate::query::encode_header_parameters(ps) == tail(header_values(ps), 0, seq!['-']),
    decreases ps.len(),
{
    if ps.len() > 0 {
        lemma_header_parameters_text(ps.drop_last());
        assert(header_values(ps) =~= header_values(ps.drop_last()).push(ps.last().value));
        lemma_tail_push(header_values(ps.drop_last()), ps.last().value, 0, seq!['-']);
    }
}

/// The parameters of a header from `from` on that stand at `k` before a
/// `/` are read as they stand.
pub proof fn lemma_header_parameters_read(
    ps: Seq<HeaderParameterView>,
    from: int,
    t: Seq<char>,
    k: int,
)
    requires
        wf_header_parameters(ps),
        0 <= from <= ps.len(),
        has_at(t, k, tail(header_values(ps), from, seq!['-'])),
        k + tail(header_values(ps), from, seq!['-']).len() < t.len(),
        t[k + tail(header_values(ps), from, seq!['-']).len()] == '/',
    ensures
        parse_header_parameters(t, k).1 == k + tail(header_values(ps), from, seq!['-']).len(),
        bare_header_parameters(parse_header_parameters(t, k).0) == bare_header_parameters(
            ps.subrange(from, ps.len() as int),
        ),
    decreases ps.len() - from,
{
    let values = header_values(ps);
    if from >= ps.len() {
        assert(bare_header_parameters(ps.subrange(from, ps.len() as int)) =~= Seq::empty());
        assert(bare_header_parameters(Seq::<HeaderParameterView>::empty()) =~= Seq::empty());
    } else {
        let value = ps[from].value;
        let rest = tail(values, from + 1, seq!['-']);
        assert(tail(values, from, seq!['-']) == seq!['-'] + value + rest);
        lemma_has_at_concat(t, k, seq!['-'] + value, rest);
        lemma_has_at_concat(t, k, seq!['-'], value);
        lemma_has_at_one(t, k, '-');
        let after = k + 1 + value.len();
        if from + 1 < ps.len() {
            assert(rest == seq!['-'] + values[from + 1] + tail(values, from + 2, seq!['-']));
            lemma_has_at_index(t, after, rest, 0);
        } else {
            assert(rest.len() == 0);
        }
        assert forall|j: int| k + 1 <= j < after implies in_class(
            CharClass::HeaderValue,
            #[trigger] t[j],
        ) by {
            lemma_has_at_index(t, k + 1, value, j - k - 1);
        }
        lemma_run_exact(t, k + 1, after, CharClass::HeaderValue);
        lemma_header_parameters_read(ps, from + 1, t, after);
        let later = parse_header_parameters(t, after).0;
        let read = parse_header_parameters(t, k).0;
        assert(t.subrange(k + 1, after) == value);
        assert(read == seq![
            HeaderParameterView { value, position: crate::parse::position_at(k + 1) },
        ] + later);
        let wanted = ps.subrange(from, ps.len() as int);
        let wanted_later = ps.subrange(from + 1, ps.len() as int);
        assert(bare_header_parameters(read) =~= bare_header_parameters(wanted)) by {
            assert(bare_header_parameters(later).len() == later.len());
            assert(bare_header_parameters(wanted_later).len() == wanted_later.len());
            assert forall|i: int| 0 <= i < read.len() implies bare_header_parameters(read)[i]
                == bare_header_parameters(wanted)[i] by {
                if i > 0 {
                    assert(read[i] == later[i - 1]);
                    assert(bare_header_parameters(later)[i - 1] == bare_header_parameters(
                        wanted_later,
                    )[i - 1]);
                    assert(wanted_later[i - 1] == wanted[i]);
                } else {
                    assert(wanted[0] == ps[from]);
                }
            }
        }
    }
}

/// What the text of a header is made of, and where its parts stand.
pub proof fn lemma_header_parts(h: SegmentHeaderView, t: Seq<char>, k: int)
    requires
        has_at(t, k, crate::query::encode_header(h) + seq!['/']),
    ensures
        run_end(t, k, CharClass::Hyphen) >= k + h.level + 1,
        forall|j: int| k <= j < k + h.level + 1 ==> #[trigger] t[j] == '-',
        has_at(
            t,
            k + h.level + 1,
            (if h.resource {
                seq!['R']
            } else {
                Seq::<char>::empty()
            }) + h.name + tail(header_values(h.parameters), 0, seq!['-']) + seq!['/'],
        ),
        crate::query::encode_header(h).len() == h.level + 1 + (if h.resource {
            1int
        } else {
            0int
        }) + h.name.len() + tail(header_values(h.parameters), 0, seq!['-']).len(),
{
    let mark = if h.resource {
        seq!['R']
    } else {
        Seq::<char>::empty()
    };
    let params = tail(header_values(h.parameters), 0, seq!['-']);
    lemma_header_parameters_text(h.parameters);
    let dashes = crate::query::hyphens(h.level + 1);
    let after = mark + h.name + params + seq!['/'];
    assert(crate::query::encode_header(h) + seq!['/'] =~= dashes + after);
    lemma_has_at_concat(t, k, dashes, after);
    assert forall|j: int| k <= j < k + h.level + 1 implies #[trigger] t[j] == '-' by {
        lemma_has_at_index(t, k, dashes, j - k);
    }
    lemma_run_end(t, k, CharClass::Hyphen);
    let e = run_end(t, k, CharClass::Hyphen);
    if e < k + h.level + 1 {
        assert(t[e] == '-');
    }
}

/// The header of a resource segment that stands at `k` before a `/` is
/// read as it stands, with the `/`.
pub proof fn lemma_resource_header_read(h: SegmentHeaderView, t: Seq<char>, k: int)
    requires
        wf_resource_header(h),
        has_at(t, k, crate::query::encode_header(h) + seq!['/']),
    ensures
        crate::parse::parse_resource_header(t, k) is Some,
        (crate::parse::parse_resource_header(t, k)->0).1 == k + crate::query::encode_header(
            h,
        ).len() + 1,
        bare_header((crate::parse::parse_resource_header(t, k)->0).0) == bare_header(h),
{
    let params = tail(header_values(h.parameters), 0, seq!['-']);
    lemma_header_parts(h, t, k);
    let mark = k + h.level + 1;
    let rest = h.name + params + seq!['/'];
    assert(seq!['R'] + h.name + params + seq!['/'] =~= seq!['R'] + rest);
    lemma_has_at_concat(t, mark, seq!['R'], rest);
    lemma_has_at_one(t, mark, 'R');
    lemma_run_exact(t, k, mark, CharClass::Hyphen);
    lemma_has_at_concat(t, mark + 1, h.name, params + seq!['/']);
    assert(rest =~= h.name + (params + seq!['/']));
    let name_end = mark + 1 + h.name.len();
    lemma_has_at_concat(t, name_end, params, seq!['/']);
    lemma_has_at_one(t, name_end + params.len(), '/');
    assert forall|j: int| mark + 1 <= j < name_end implies in_class(
        CharClass::Word,
        #[trigger] t[j],
    ) by {
        lemma_has_at_index(t, mark + 1, h.name, j - mark - 1);
    }
    if h.parameters.len() > 0 {
        assert(params == seq!['-'] + header_values(h.parameters)[0] + tail(
            header_values(h.parameters),
            1,
            seq!['-'],
        ));
        lemma_has_at_index(t, name_end, params, 0);
    } else {
        assert(params.len() == 0);
    }
    lemma_run_exact(t, mark + 1, name_end, CharClass::Word);
    lemma_header_parameters_read(h.parameters, 0, t, name_end);
    assert(h.parameters.subrange(0, h.parameters.len() as int) =~= h.parameters);
    assert(t.subrange(mark + 1, name_end) == h.name);
}

/// The header of a transform segment that stands at `k` before a `/` is
/// read as it stands, with the `/`, and is not read as the header of a
/// resource segment.
pub proof fn lemma_transform_header_read(h: SegmentHeaderView, t: Seq<char>, k: int)
    requires
        wf_transform_header(h),
        has_at(t, k, crate::query::encode_header(h) + seq!['/']),
    ensures
        crate::parse::parse_resource_header(t, k) is None,
        crate::parse::parse_transform_header(t, k) is Some,
        (crate::parse::parse_transform_header(t, k)->0).1 == k + crate::query::encode_header(
            h,
        ).len() + 1,
        bare_header((crate::parse::parse_transform_header(t, k)->0).0) == bare_header(h),
{
    let params = tail(header_values(h.parameters), 0, seq!['-']);
    lemma_header_parts(h, t, k);
    let mark = k + h.level + 1;
    assert(Seq::<char>::empty() + h.name + params + seq!['/'] =~= h.name + (params + seq!['/']));
    lemma_has_at_concat(t, mark, h.name, params + seq!['/']);
    let name_end = mark + h.name.len();
    lemma_has_at_concat(t, name_end, params, seq!['/']);
    lemma_has_at_one(t, name_end + params.len(), '/');
    if h.name.len() == 0 {
        assert(params.len() == 0);
        lemma_run_exact(t, k, mark, CharClass::Hyphen);
        assert(bare_header_parameters(Seq::<HeaderParameterView>::empty())
            =~= bare_header_parameters(h.parameters));
        assert(h.name =~= Seq::<char>::empty());
    } else {
        lemma_has_at_index(t, mark, h.name, 0);
        lemma_run_exact(t, k, mark, CharClass::Hyphen);
        assert forall|j: int| mark + 1 <= j < name_end implies in_class(
            CharClass::Word,
            #[trigger] t[j],
        ) by {
            lemma_has_at_index(t, mark, h.name, j - mark);
        }
        if h.parameters.len() > 0 {
            assert(params == seq!['-'] + header_values(h.parameters)[0] + tail(
                header_values(h.parameters),
                1,
                seq!['-'],
            ));
            lemma_has_at_index(t, name_end, params, 0);
        } else {
            assert(params.len() == 0);
        }
        lemma_run_exact(t, mark + 1, name_end, CharClass::Word);
        lemma_header_parameters_read(h.parameters, 0, t, name_end);
        assert(h.parameters.subrange(0, h.parameters.len() as int) =~= h.parameters);
        assert(t.subrange(mark, name_end) == h.name);
    }
}

// ---------------------------------------------------------------------------
// Segments
// ---------------------------------------------------------------------------
/// The steps from action `from` on are that action, then each further
/// action after a `/`, then the filename after a `/`.
pub proof fn lemma_steps_as_tail(
    actions: Seq<ActionRequestView>,
    from: int,
    filename: Option<ResourceNameView>,
)
    requires
        0 <= from < actions.len(),
    ensures
        steps_text(actions, from, filename) == encode_action(actions[from]) + tail(
            crate::query::encode_actions(actions),
            from + 1,
            seq!['/'],
        ) + match filename {
            Some(f) => seq!['/'] + f.name,
            None => Seq::<char>::empty(),
        },
    decreases actions.len() - from,
{
    let parts = crate::query::encode_actions(actions);
    let last = match filename {
        Some(f) => seq!['/'] + f.name,
        None => Seq::<char>::empty(),
    };
    if from == actions.len() - 1 {
        assert(tail(parts, from + 1, seq!['/']) =~= Seq::<char>::empty());
        assert(steps_text(actions, from, filename) =~= encode_action(actions[from]) + tail(
            parts,
            from + 1,
            seq!['/'],
        ) + last);
    } else {
        lemma_steps_as_tail(actions, from + 1, filename);
        assert(parts[from + 1] == encode_action(actions[from + 1]));
        assert(steps_text(actions, from, filename) =~= encode_action(actions[from]) + tail(
            parts,
            from + 1,
            seq!['/'],
        ) + last);
    }
}

/// The text of a transform segment without a header is the text of its
/// steps, and so is what follows the header and a `/` in the text of a
/// transform segment with a header.
pub proof fn lemma_transform_text(t: TransformQuerySegmentView)
    requires
        wf_steps(t.query, t.filename),
    ensures
        steps_text(t.query, 0, t.filename).len() > 0,
        crate::query::encode_transform(t) == match t.header {
            Some(h) => crate::query::encode_header(h) + seq!['/'] + steps_text(
                t.query,
                0,
                t.filename,
            ),
            None => steps_text(t.query, 0, t.filename),
        },
{
    let parts = crate::query::encode_actions(t.query);
    let actions = join(parts, seq!['/']);
    lemma_join_tail(parts, seq!['/']);
    lemma_steps_as_tail(t.query, 0, t.filename);
    lemma_action_text(t.query[0]);
    assert(parts[0] == encode_action(t.query[0]));
    assert(actions.len() > 0);
    let body = match t.filename {
        Some(f) => actions + seq!['/'] + f.name,
        None => actions,
    };
    assert(body =~= steps_text(t.query, 0, t.filename));
}

/// The text of a segment with a header begins with a hyphen.
pub proof fn lemma_segment_begins(seg: QuerySegmentView)
    requires
        wf_segment(seg),
    ensures
        crate::query::encode_segment(seg).len() > 0,
        crate::query::encode_segment(seg)[0] == '-',
{
    match seg {
        QuerySegmentView::Resource(r) => {
            let h = r.header->0;
            assert(crate::query::hyphens(h.level + 1)[0] == '-');
        },
        QuerySegmentView::Transform(t) => {
            lemma_transform_text(t);
            let h = t.header->0;
            assert(crate::query::hyphens(h.level + 1)[0] == '-');
        },
    }
}

/// A transform segment with a header that stands at `k` before a place
/// where a segment may end is read as it stands.
pub proof fn lemma_headed_transform_read(tr: TransformQuerySegmentView, t: Seq<char>, k: int)
    requires
        wf_headed_transform(tr),
        has_at(t, k, crate::query::encode_transform(tr)),
        ends_segment(t, k + crate::query::encode_transform(tr).len()),
    ensures
        crate::parse::parse_resource_header(t, k) is None,
        crate::parse::parse_headed_transform(t, k) is Some,
        (crate::parse::parse_headed_transform(t, k)->0).1 == k + crate::query::encode_transform(
            tr,
        ).len(),
        bare_transform((crate::parse::parse_headed_transform(t, k)->0).0) == bare_transform(tr),
    decreases tr, 0int,
{
    let h = tr.header->0;
    let steps = steps_text(tr.query, 0, tr.filename);
    lemma_transform_text(tr);
    let head = crate::query::encode_header(h) + seq!['/'];
    assert(crate::query::encode_transform(tr) =~= head + steps);
    lemma_has_at_concat(t, k, head, steps);
    lemma_transform_header_read(h, t, k);
    lemma_steps_read(tr.query, 0, tr.filename, t, k + head.len());
    assert(tr.query.subrange(0, tr.query.len() as int) =~= tr.query);
}

/// A segment with a header that stands at `k` before a place where a
/// segment may end is read as it stands.
pub proof fn lemma_segment_read(seg: QuerySegmentView, t: Seq<char>, k: int)
    requires
        wf_segment(seg),
        has_at(t, k, crate::query::encode_segment(seg)),
        ends_segment(t, k + crate::query::encode_segment(seg).len()),
    ensures
        crate::parse::parse_segment(t, k) is Some,
        (crate::parse::parse_segment(t, k)->0).1 == k + crate::query::encode_segment(seg).len(),
        bare_segment((crate::parse::parse_segment(t, k)->0).0) == bare_segment(seg),
    decreases seg, 1int,
{
    match seg {
        QuerySegmentView::Resource(r) => {
            let h = r.header->0;
            let head = crate::query::encode_header(h) + seq!['/'];
            let path = encode_key(r.key);
            assert(crate::query::encode_segment(seg) =~= head + path);
            lemma_has_at_concat(t, k, head, path);
            lemma_resource_header_read(h, t, k);
            let next = k + head.len();
            let end = next + path.len();
            if has_at(t, end, link_close()) {
                lemma_close_mark(t, end);
            }
            if r.key.len() == 0 {
                assert(path.len() == 0);
                lemma_run_end(t, next, CharClass::Name);
                assert(run_end(t, next, CharClass::Name) == next);
                assert(bare_names(Seq::<ResourceNameView>::empty()) =~= bare_names(r.key));
            } else {
                lemma_path_read(r.key, t, next);
            }
        },
        QuerySegmentView::Transform(tr) => {
            lemma_headed_transform_read(tr, t, k);
        },
    }
}

/// The text of the segments from `from` on, joined by `/`.
pub open spec fn segments_text(segments: Seq<QuerySegmentView>, from: int) -> Seq<char> {
    crate::query::encode_segments(segments)[from] + tail(
        crate::query::encode_segments(segments),
        from + 1,
        seq!['/'],
    )
}

/// One segment before others that were read: the bare forms go together.
pub proof fn lemma_bare_segments_cons(
    first: QuerySegmentView,
    later: Seq<QuerySegmentView>,
    segments: Seq<QuerySegmentView>,
    from: int,
)
    requires
        0 <= from < segments.len(),
        bare_segment(first) == bare_segment(segments[from]),
        bare_segments(later) == bare_segments(segments.subrange(from + 1, segments.len() as int)),
    ensures
        bare_segments(seq![first] + later) == bare_segments(
            segments.subrange(from, segments.len() as int),
        ),
{
    let read = seq![first] + later;
    let wanted = segments.subrange(from, segments.len() as int);
    let wanted_later = segments.subrange(from + 1, segments.len() as int);
    assert(bare_segments(later).len() == later.len());
    assert(bare_segments(wanted_later).len() == wanted_later.len());
    assert forall|i: int| 0 <= i < read.len() implies bare_segments(read)[i] == bare_segments(
        wanted,
    )[i] by {
        if i > 0 {
            assert(read[i] == later[i - 1]);
            assert(bare_segments(later)[i - 1] == bare_segments(wanted_later)[i - 1]);
            assert(wanted_later[i - 1] == wanted[i]);
        } else {
            assert(wanted[0] == segments[from]);
        }
    }
    assert(bare_segments(read) =~= bare_segments(wanted));
}

/// The segments from `from` on that stand at `k` before a place where the
/// query may end are read as they stand.
pub proof fn lemma_segments_read(
    segments: Seq<QuerySegmentView>,
    from: int,
    t: Seq<char>,
    k: int,
    nested: bool,
)
    requires
        wf_segments(segments),
        0 <= from < segments.len(),
        has_at(t, k, segments_text(segments, from)),
        at_stop(t, k + segments_text(segments, from).len(), nested),
    ensures
        crate::parse::parse_segments(t, k) is Some,
        (crate::parse::parse_segments(t, k)->0).1 == k + segments_text(segments, from).len(),
        bare_segments((crate::parse::parse_segments(t, k)->0).0) == bare_segments(
            segments.subrange(from, segments.len() as int),
        ),
    decreases segments, segments.len() - from,
{
    let parts = crate::query::encode_segments(segments);
    let seg = segments[from];
    let rest = tail(parts, from + 1, seq!['/']);
    assert(parts[from] == crate::query::encode_segment(seg));
    lemma_has_at_concat(t, k, parts[from], rest);
    let next = k + parts[from].len();
    if from == segments.len() - 1 {
        assert(rest.len() == 0);
        if has_at(t, next, link_close()) {
            lemma_close_mark(t, next);
        }
        lemma_segment_read(seg, t, k);
        let first = (crate::parse::parse_segment(t, k)->0).0;
        assert((crate::parse::parse_segments(t, k)->0).0 == seq![first]);
        assert(bare_segments(Seq::<QuerySegmentView>::empty()) =~= bare_segments(
            segments.subrange(from + 1, segments.len() as int),
        ));
        lemma_bare_segments_cons(first, Seq::empty(), segments, from);
        assert(seq![first] + Seq::<QuerySegmentView>::empty() =~= seq![first]);
    } else {
        let following = segments_text(segments, from + 1);
        assert(rest =~= seq!['/'] + following);
        lemma_has_at_concat(t, next, seq!['/'], following);
        lemma_has_at_one(t, next, '/');
        lemma_segment_begins(segments[from + 1]);
        assert(parts[from + 1] == crate::query::encode_segment(segments[from + 1]));
        lemma_has_at_index(t, next + 1, following, 0);
        lemma_segment_read(seg, t, k);
        lemma_segments_read(segments, from + 1, t, next + 1, nested);
        let first = (crate::parse::parse_segment(t, k)->0).0;
        let later = (crate::parse::parse_segments(t, next + 1)->0).0;
        assert((crate::parse::parse_segments(t, k)->0).0 == seq![first] + later);
        lemma_bare_segments_cons(first, later, segments, from);
    }
}

// ---------------------------------------------------------------------------
// What a chain of actions cannot be read past
// ---------------------------------------------------------------------------
/// Whether a `/` stands at `h` and no `~` from `i` up to it.
pub open spec fn walled(t: Seq<char>, i: int, h: int) -> bool {
    &&& 0 <= i <= h < t.len()
    &&& t[h] == '/'
    &&& forall|j: int| i <= j < h ==> #[trigger] t[j] != '~'
}

/// A run does not pass a character of another class.
pub proof fn lemma_run_walled(t: Seq<char>, i: int, h: int, class: CharClass)
    requires
        0 <= i <= h < t.len(),
        !in_class(class, t[h]),
    ensures
        run_end(t, i, class) <= h,
    decreases h - i,
{
    if i < h && in_class(class, t[i]) {
        lemma_run_walled(t, i + 1, h, class);
    }
}

/// The text of a parameter is not read past the `/`.
pub proof fn lemma_text_walled(t: Seq<char>, i: int, h: int)
    requires
        walled(t, i, h),
    ensures
        parse_text(t, i).1 <= h,
    decreases h - i,
{
    if i < h {
        assert(t[i] != '~');
        if is_plain(t[i]) {
            lemma_text_walled(t, i + 1, h);
        }
    }
}

/// The parameters of an action are not read past the `/`.
pub proof fn lemma_parameters_walled(t: Seq<char>, i: int, h: int)
    requires
        walled(t, i, h),
    ensures
        parse_parameters(t, i) is Some ==> (parse_parameters(t, i)->0).1 <= h,
    decreases h - i,
{
    if i < h && t[i] == '-' {
        assert(t[i + 1] != '~') by {
            if i + 1 < h {
                assert(t[i + 1] != '~');
            }
        }
        assert(!has_at(t, i + 1, link_open())) by {
            if has_at(t, i + 1, link_open()) {
                lemma_has_at_index(t, i + 1, link_open(), 0);
            }
        }
        assert(walled(t, i + 1, h));
        lemma_text_walled(t, i + 1, h);
        lemma_text_is_token(t, i + 1);
        let next = parse_text(t, i + 1).1;
        assert(parse_parameter(t, i + 1) == Some(
            (
                ActionParameterView::String(
                    parse_text(t, i + 1).0,
                    crate::parse::position_at(i + 1),
                ),
                next,
            ),
        ));
        assert(walled(t, next, h));
        lemma_parameters_walled(t, next, h);
    } else {
        assert(parse_parameters(t, i) == Some((Seq::<ActionParameterView>::empty(), i)));
    }
}

/// An action, and the identifier that it begins with, is not read past
/// the `/`.
pub proof fn lemma_action_walled(t: Seq<char>, i: int, h: int)
    requires
        walled(t, i, h),
    ensures
        parse_action(t, i) is Some ==> i < (parse_action(t, i)->0).1 <= h,
        identifier_end(t, i) is Some ==> i < identifier_end(t, i)->0 <= h,
{
    if identifier_end(t, i) is Some {
        assert(i < h);
        lemma_run_walled(t, i + 1, h, CharClass::Word);
        lemma_run_end(t, i + 1, CharClass::Word);
        let name_end = identifier_end(t, i)->0;
        assert(walled(t, name_end, h));
        lemma_parameters_walled(t, name_end, h);
        if parse_parameters(t, name_end) is Some {
            lemma_parameters_bounds(t, name_end);
        }
    }
}

/// Parameters end at or after the place where they begin.
pub proof fn lemma_parameters_bounds(t: Seq<char>, i: int)
    requires
        0 <= i <= t.len(),
        parse_parameters(t, i) is Some,
    ensures
        i <= (parse_parameters(t, i)->0).1 <= t.len(),
    decreases t.len() - i,
{
    if i < t.len() && t[i] == '-' {
        let next = (parse_parameter(t, i + 1)->0).1;
        lemma_parameters_bounds(t, next);
    }
}

/// A filename is not read past the `/`.
pub proof fn lemma_filename_walled(t: Seq<char>, i: int, h: int)
    requires
        walled(t, i, h),
    ensures
        parse_filename(t, i) is Some ==> (parse_filename(t, i)->0).1 <= h,
{
    if parse_filename(t, i) is Some {
        lemma_action_walled(t, i, h);
        let stem_end = identifier_end(t, i)->0;
        assert(stem_end < h);
        lemma_run_walled(t, stem_end + 1, h, CharClass::Name);
    }
}

/// A chain of actions that begins at or before a `/` that a hyphen
/// follows, with no `~` in between, is not read past the `/`.
pub proof fn lemma_steps_walled(t: Seq<char>, i: int, h: int)
    requires
        walled(t, i, h),
        h + 1 < t.len(),
        t[h + 1] == '-',
    ensures
        parse_steps(t, i) is Some ==> (parse_steps(t, i)->0).2 <= h,
    decreases h - i,
{
    lemma_action_walled(t, i, h);
    match parse_action(t, i) {
        Some((action, next)) => {
            if next < t.len() && t[next] == '/' {
                if next < h {
                    assert(walled(t, next + 1, h));
                    lemma_filename_walled(t, next + 1, h);
                    lemma_steps_walled(t, next + 1, h);
                }
            }
        },
        None => {},
    }
}

/// The text of a path holds name characters and `/` only.
pub proof fn lemma_names_tail_chars(names: Seq<ResourceNameView>, from: int)
    requires
        wf_names(names),
        0 <= from,
    ensures
        forall|j: int|
            0 <= j < tail(name_texts(names), from, seq!['/']).len() ==> (#[trigger] tail(
                name_texts(names),
                from,
                seq!['/'],
            )[j]) != '~',
    decreases names.len() - from,
{
    if from < names.len() {
        lemma_names_tail_chars(names, from + 1);
        let name = names[from].name;
        let rest = tail(name_texts(names), from + 1, seq!['/']);
        let text = tail(name_texts(names), from, seq!['/']);
        assert(text == seq!['/'] + name + rest);
        assert forall|j: int| 0 <= j < text.len() implies (#[trigger] text[j]) != '~' by {
            if j == 0 {
            } else if j < 1 + name.len() {
                assert(text[j] == name[j - 1]);
                assert(in_class(CharClass::Name, name[j - 1]));
            } else {
                assert(text[j] == rest[j - 1 - name.len()]);
            }
        }
    }
}

/// A path and a transform segment with a header are not read as a chain
/// of actions to a place where a query may end.
pub proof fn lemma_path_is_no_chain(
    names: Seq<ResourceNameView>,
    t: Seq<char>,
    k: int,
    nested: bool,
)
    requires
        wf_names(names),
        names.len() > 0,
        has_at(t, k, encode_key(names)),
        k + encode_key(names).len() + 1 < t.len(),
        t[k + encode_key(names).len()] == '/',
        t[k + encode_key(names).len() + 1] == '-',
    ensures
        parse_steps(t, k) is Some ==> !at_stop(t, (parse_steps(t, k)->0).2, nested),
{
    let texts = name_texts(names);
    let h = k + encode_key(names).len();
    lemma_join_tail(texts, seq!['/']);
    lemma_names_tail_chars(names, 1);
    let first = names[0].name;
    let rest = tail(texts, 1, seq!['/']);
    assert forall|j: int| k <= j < h implies #[trigger] t[j] != '~' by {
        lemma_has_at_index(t, k, first + rest, j - k);
        if j - k < first.len() {
            assert((first + rest)[j - k] == first[j - k]);
            assert(in_class(CharClass::Name, first[j - k]));
        } else {
            assert((first + rest)[j - k] == rest[j - k - first.len()]);
        }
    }
    assert(walled(t, k, h));
    lemma_steps_walled(t, k, h);
    if parse_steps(t, k) is Some {
        let end = (parse_steps(t, k)->0).2;
        lemma_action_walled(t, k, h);
        lemma_steps_bounds(t, k);
        if has_at(t, end, link_close()) {
            lemma_close_mark(t, end);
        }
    }
}

/// Steps end after the place where they begin.
pub proof fn lemma_steps_bounds(t: Seq<char>, i: int)
    requires
        0 <= i <= t.len(),
        parse_steps(t, i) is Some,
    ensures
        i < (parse_steps(t, i)->0).2 <= t.len(),
    decreases t.len() - i,
{
    let name_end = identifier_end(t, i)->0;
    lemma_run_end(t, i + 1, CharClass::Word);
    lemma_parameters_bounds(t, name_end);
    let next = (parse_action(t, i)->0).1;
    if next < t.len() && t[next] == '/' {
        match parse_filename(t, next + 1) {
            Some((f, end)) => {
                let stem_end = identifier_end(t, next + 1)->0;
                lemma_run_end(t, next + 2, CharClass::Word);
                lemma_run_end(t, stem_end + 1, CharClass::Name);
            },
            None => {
                if identifier_end(t, next + 1) is Some {
                    lemma_steps_bounds(t, next + 1);
                }
            },
        }
    }
}

// ---------------------------------------------------------------------------
// Queries
// ---------------------------------------------------------------------------
/// The text of a query: its segments joined by `/`, after a `/` where the
/// query is absolute. The mark of a resource query stands only before a
/// segment that shows no header of its own.
pub proof fn lemma_query_text(q: QueryView)
    requires
        !q.is_resource_query() || (q.segments[0]->Resource_0.header is Some),
    ensures
        encode_query(q) == (if q.absolute {
            seq!['/']
        } else {
            Seq::<char>::empty()
        }) + join(crate::query::encode_segments(q.segments), seq!['/']),
{
    let parts = crate::query::encode_segments(q.segments);
    let body = join(parts, seq!['/']);
    if q.is_resource_query() {
        let r = q.segments[0]->Resource_0;
        let h = r.header->0;
        assert(parts[0] == crate::query::encode_resource(r));
        assert(crate::query::hyphens(h.level + 1)[0] == '-');
        assert(body == parts[0]);
        assert(body[0] == '-');
    }
    assert(encode_query(q) =~= (if q.absolute {
        seq!['/']
    } else {
        Seq::<char>::empty()
    }) + body);
}

/// Where the text of a query begins, past the `/` of an absolute query.
pub open spec fn body_start(q: QueryView, k: int) -> int {
    if q.absolute {
        k + 1
    } else {
        k
    }
}

/// The body of a query stands after the `/` of an absolute query.
pub proof fn lemma_query_body(q: QueryView, t: Seq<char>, k: int)
    requires
        !q.is_resource_query() || (q.segments[0]->Resource_0.header is Some),
        has_at(t, k, encode_query(q)),
    ensures
        has_at(t, body_start(q, k), join(crate::query::encode_segments(q.segments), seq!['/'])),
        body_start(q, k) + join(crate::query::encode_segments(q.segments), seq!['/']).len() == k
            + encode_query(q).len(),
        q.absolute ==> 0 <= k < t.len() && t[k] == '/',
{
    let body = join(crate::query::encode_segments(q.segments), seq!['/']);
    lemma_query_text(q);
    if q.absolute {
        lemma_has_at_concat(t, k, seq!['/'], body);
        lemma_has_at_one(t, k, '/');
    } else {
        assert(Seq::<char>::empty() + body =~= body);
    }
}

/// A chain of actions without a header is read as it stands.
pub proof fn lemma_plain_transform_read(q: QueryView, t: Seq<char>, k: int, nested: bool)
    requires
        is_plain_transform(q),
        has_at(t, k, encode_query(q)),
        at_stop(t, k + encode_query(q).len(), nested),
    ensures
        parse_query_at(t, k, nested) is Some,
        (parse_query_at(t, k, nested)->0).1 == k + encode_query(q).len(),
        bare_query((parse_query_at(t, k, nested)->0).0) == bare_query(q),
    decreases q, 1int,
{
    let parts = crate::query::encode_segments(q.segments);
    let body = join(parts, seq!['/']);
    let end = k + encode_query(q).len();
    let start = body_start(q, k);
    let tr = q.segments[0]->Transform_0;
    if has_at(t, end, link_close()) {
        lemma_close_mark(t, end);
    }
    lemma_query_body(q, t, k);
    lemma_transform_text(tr);
    assert(parts[0] == crate::query::encode_transform(tr));
    assert(body == steps_text(tr.query, 0, tr.filename));
    lemma_steps_as_tail(tr.query, 0, tr.filename);
    let after_first = tail(crate::query::encode_actions(tr.query), 1, seq!['/'])
        + match tr.filename {
        Some(f) => seq!['/'] + f.name,
        None => Seq::<char>::empty(),
    };
    assert(body =~= encode_action(tr.query[0]) + after_first);
    lemma_has_at_concat(t, start, encode_action(tr.query[0]), after_first);
    assert(wf_action(tr.query[0]));
    lemma_action_begins(tr.query[0], t, start);
    lemma_steps_read(tr.query, 0, tr.filename, t, start);
    assert(tr.query.subrange(0, tr.query.len() as int) =~= tr.query);
    let absolute = k < t.len() && t[k] == '/';
    assert(absolute == q.absolute);
    let reading = crate::parse::parse_plain_transform(t, start, absolute);
    assert(crate::parse::complete(t, reading, nested));
    let read = (reading->0).0;
    assert(bare_segments(read.segments) =~= bare_segments(q.segments)) by {
        assert(read.segments[0] == QuerySegmentView::Transform(
            TransformQuerySegmentView {
                header: None,
                query: (parse_steps(t, start)->0).0,
                filename: (parse_steps(t, start)->0).1,
            },
        ));
        assert(bare_segments(read.segments)[0] == bare_segments(q.segments)[0]);
    }
}

/// A path and a transform segment with a header are read as they stand.
pub proof fn lemma_resource_transform_read(q: QueryView, t: Seq<char>, k: int, nested: bool)
    requires
        is_resource_transform(q),
        has_at(t, k, encode_query(q)),
        at_stop(t, k + encode_query(q).len(), nested),
    ensures
        parse_query_at(t, k, nested) is Some,
        (parse_query_at(t, k, nested)->0).1 == k + encode_query(q).len(),
        bare_query((parse_query_at(t, k, nested)->0).0) == bare_query(q),
    decreases q, 1int,
{
    let parts = crate::query::encode_segments(q.segments);
    let body = join(parts, seq!['/']);
    let end = k + encode_query(q).len();
    let start = body_start(q, k);
    let r = q.segments[0]->Resource_0;
    let tr = q.segments[1]->Transform_0;
    let path = encode_key(r.key);
    let second = crate::query::encode_transform(tr);
    if has_at(t, end, link_close()) {
        lemma_close_mark(t, end);
    }
    lemma_query_body(q, t, k);
    assert(parts[0] == path);
    assert(parts[1] == second);
    lemma_join_tail(parts, seq!['/']);
    assert(tail(parts, 2, seq!['/']) =~= Seq::<char>::empty());
    assert(tail(parts, 1, seq!['/']) =~= seq!['/'] + second);
    assert(body =~= path + seq!['/'] + second);
    lemma_has_at_concat(t, start, path + seq!['/'], second);
    lemma_has_at_concat(t, start, path, seq!['/']);
    let h = start + path.len();
    lemma_has_at_one(t, h, '/');
    lemma_segment_begins(q.segments[1]);
    lemma_has_at_index(t, h + 1, second, 0);
    // the first name does not begin with a `/`
    lemma_join_tail(name_texts(r.key), seq!['/']);
    lemma_has_at_concat(t, start, r.key[0].name, tail(name_texts(r.key), 1, seq!['/']));
    lemma_has_at_index(t, start, r.key[0].name, 0);
    let absolute = k < t.len() && t[k] == '/';
    assert(absolute == q.absolute);
    // not a chain of actions
    lemma_path_is_no_chain(r.key, t, start, nested);
    assert(!crate::parse::complete(
        t,
        crate::parse::parse_plain_transform(t, start, absolute),
        nested,
    ));
    // a path and a transform segment
    assert(parse_more_names(t, h) == (Seq::<ResourceNameView>::empty(), h)) by {
        lemma_run_end(t, h + 1, CharClass::Name);
    }
    lemma_path_read(r.key, t, start);
    lemma_headed_transform_read(tr, t, h + 1);
    let read_key = parse_path(t, start).0;
    assert(read_key.len() > 0) by {
        assert(bare_names(read_key).len() == read_key.len());
        assert(bare_names(r.key).len() == r.key.len());
    }
    let reading = crate::parse::parse_resource_transform(t, start, absolute);
    assert(reading is Some);
    assert(crate::parse::complete(t, reading, nested));
    let read = (reading->0).0;
    assert(bare_segments(read.segments) =~= bare_segments(q.segments)) by {
        assert(bare_segments(read.segments)[0] == bare_segments(q.segments)[0]);
        assert(bare_segments(read.segments)[1] == bare_segments(q.segments)[1]);
    }
}

/// Segments with headers are read as they stand.
pub proof fn lemma_general_read(q: QueryView, t: Seq<char>, k: int, nested: bool)
    requires
        is_general(q),
        has_at(t, k, encode_query(q)),
        at_stop(t, k + encode_query(q).len(), nested),
    ensures
        parse_query_at(t, k, nested) is Some,
        (parse_query_at(t, k, nested)->0).1 == k + encode_query(q).len(),
        bare_query((parse_query_at(t, k, nested)->0).0) == bare_query(q),
    decreases q, 1int,
{
    let parts = crate::query::encode_segments(q.segments);
    let body = join(parts, seq!['/']);
    let end = k + encode_query(q).len();
    let start = body_start(q, k);
    if has_at(t, end, link_close()) {
        lemma_close_mark(t, end);
    }
    assert(wf_segment(q.segments[0]));
    lemma_query_body(q, t, k);
    lemma_join_tail(parts, seq!['/']);
    lemma_segment_begins(q.segments[0]);
    assert(parts[0] == crate::query::encode_segment(q.segments[0]));
    assert(body[0] == '-');
    lemma_has_at_index(t, start, body, 0);
    let absolute = k < t.len() && t[k] == '/';
    assert(absolute == q.absolute);
    // neither a chain of actions nor a path
    assert(identifier_end(t, start) is None);
    assert(crate::parse::parse_plain_transform(t, start, absolute) is None);
    lemma_run_end(t, start, CharClass::Name);
    assert(parse_name(t, start) is None);
    assert(crate::parse::parse_resource_transform(t, start, absolute) is None);
    assert(body == segments_text(q.segments, 0));
    lemma_segments_read(q.segments, 0, t, start, nested);
    assert(q.segments.subrange(0, q.segments.len() as int) =~= q.segments);
    let reading = crate::parse::parse_general(t, start, absolute);
    assert(crate::parse::complete(t, reading, nested));
}

/// The empty query is read as it stands.
pub proof fn lemma_empty_read(q: QueryView, t: Seq<char>, k: int, nested: bool)
    requires
        q.segments.len() == 0,
        has_at(t, k, encode_query(q)),
        at_stop(t, k + encode_query(q).len(), nested),
    ensures
        parse_query_at(t, k, nested) is Some,
        (parse_query_at(t, k, nested)->0).1 == k + encode_query(q).len(),
        bare_query((parse_query_at(t, k, nested)->0).0) == bare_query(q),
{
    let parts = crate::query::encode_segments(q.segments);
    let body = join(parts, seq!['/']);
    let end = k + encode_query(q).len();
    let start = body_start(q, k);
    if has_at(t, end, link_close()) {
        lemma_close_mark(t, end);
    }
    lemma_query_body(q, t, k);
    assert(body.len() == 0);
    assert(start == end);
    let absolute = k < t.len() && t[k] == '/';
    assert(absolute == q.absolute);
    assert(identifier_end(t, start) is None);
    assert(crate::parse::parse_plain_transform(t, start, absolute) is None);
    lemma_run_end(t, start, CharClass::Name);
    assert(parse_name(t, start) is None);
    assert(crate::parse::parse_resource_transform(t, start, absolute) is None);
    lemma_run_end(t, start, CharClass::Hyphen);
    assert(run_end(t, start, CharClass::Hyphen) == start);
    assert(crate::parse::parse_resource_header(t, start) is None);
    assert(crate::parse::parse_transform_header(t, start) is None);
    assert(crate::parse::parse_segment(t, start) is None);
    assert(crate::parse::parse_general(t, start, absolute) is None);
    let read = (parse_query_at(t, k, nested)->0).0;
    assert(bare_segments(read.segments) =~= bare_segments(q.segments));
}

/// A query that stands at `k` before a place where the query may end is
/// read as it stands.
pub proof fn lemma_query_read(q: QueryView, t: Seq<char>, k: int, nested: bool)
    requires
        wf_query(q),
        has_at(t, k, encode_query(q)),
        at_stop(t, k + encode_query(q).len(), nested),
    ensures
        parse_query_at(t, k, nested) is Some,
        (parse_query_at(t, k, nested)->0).1 == k + encode_query(q).len(),
        bare_query((parse_query_at(t, k, nested)->0).0) == bare_query(q),
    decreases q, 2int,
{
    if is_plain_transform(q) {
        lemma_plain_transform_read(q, t, k, nested);
    } else if is_resource_transform(q) {
        lemma_resource_transform_read(q, t, k, nested);
    } else if is_general(q) {
        lemma_general_read(q, t, k, nested);
    } else {
        lemma_empty_read(q, t, k, nested);
    }
}

// ---------------------------------------------------------------------------
// What is read is of the forms of the grammar
// ---------------------------------------------------------------------------
/// A parameter that is read is one that the grammar gives.
pub proof fn lemma_parameter_wf(t: Seq<char>, k: int)
    requires
        0 <= k <= t.len(),
        parse_parameter(t, k) is Some,
    ensures
        wf_parameter((parse_parameter(t, k)->0).0),
        k <= (parse_parameter(t, k)->0).1 <= t.len(),
    decreases t.len() - k, 0int,
{
    if has_at(t, k, link_open()) {
        lemma_query_wf(t, k + 3, true);
        let end = (parse_query_at(t, k + 3, true)->0).1;
        lemma_close_mark(t, end);
    } else {
        lemma_text_is_token(t, k);
    }
}

/// The parameters that are read are well formed, and reading them ends
/// within the text.
pub proof fn lemma_parameters_wf(t: Seq<char>, k: int)
    requires
        0 <= k <= t.len(),
        parse_parameters(t, k) is Some,
    ensures
        wf_parameters((parse_parameters(t, k)->0).0),
        k <= (parse_parameters(t, k)->0).1 <= t.len(),
    decreases t.len() - k, 1int,
{
    if k < t.len() && t[k] == '-' {
        lemma_parameter_wf(t, k + 1);
        let first = (parse_parameter(t, k + 1)->0).0;
        let next = (parse_parameter(t, k + 1)->0).1;
        lemma_parameters_wf(t, next);
        let rest = (parse_parameters(t, next)->0).0;
        let all = seq![first] + rest;
        assert(all == (parse_parameters(t, k)->0).0);
        assert forall|i: int| 0 <= i < all.len() implies wf_parameter(#[trigger] all[i]) by {
            if i > 0 {
                assert(all[i] == rest[i - 1]);
            }
        }
    }
}

/// An action that is read is well formed, and reading it takes at least
/// one character.
pub proof fn lemma_action_wf(t: Seq<char>, k: int)
    requires
        0 <= k <= t.len(),
        parse_action(t, k) is Some,
    ensures
        wf_action((parse_action(t, k)->0).0),
        k < (parse_action(t, k)->0).1 <= t.len(),
    decreases t.len() - k, 2int,
{
    let name_end = identifier_end(t, k)->0;
    lemma_run_end(t, k + 1, CharClass::Word);
    lemma_parameters_wf(t, name_end);
    let name = t.subrange(k, name_end);
    assert forall|i: int| 0 <= i < name.len() implies in_class(
        CharClass::Word,
        #[trigger] name[i],
    ) by {
        assert(name[i] == t[k + i]);
    }
}

/// A filename that is read is one, and reading it takes at least one
/// character.
pub proof fn lemma_filename_wf(t: Seq<char>, k: int)
    requires
        0 <= k <= t.len(),
        parse_filename(t, k) is Some,
    ensures
        is_filename((parse_filename(t, k)->0).0.name),
        k < (parse_filename(t, k)->0).1 <= t.len(),
{
    let stem_end = identifier_end(t, k)->0;
    lemma_run_end(t, k + 1, CharClass::Word);
    lemma_run_end(t, stem_end + 1, CharClass::Name);
    let end = (parse_filename(t, k)->0).1;
    let f = t.subrange(k, end);
    let dot = stem_end - k;
    assert forall|i: int| 0 <= i < dot implies in_class(CharClass::Word, #[trigger] f[i]) by {
        assert(f[i] == t[k + i]);
    }
    assert(f[dot] == t[stem_end]);
    lemma_run_exact(f, 0, dot, CharClass::Word);
    assert forall|i: int| dot < i < f.len() implies in_class(CharClass::Name, #[trigger] f[i]) by {
        assert(f[i] == t[k + i]);
    }
}

/// A chain of actions that is read is well formed, and reading it takes
/// at least one character.
pub proof fn lemma_steps_wf(t: Seq<char>, k: int)
    requires
        0 <= k <= t.len(),
        parse_steps(t, k) is Some,
    ensures
        wf_steps((parse_steps(t, k)->0).0, (parse_steps(t, k)->0).1),
        k < (parse_steps(t, k)->0).2 <= t.len(),
    decreases t.len() - k, 3int,
{
    lemma_action_wf(t, k);
    let action = (parse_action(t, k)->0).0;
    let next = (parse_action(t, k)->0).1;
    if next < t.len() && t[next] == '/' {
        match parse_filename(t, next + 1) {
            Some((f, end)) => {
                lemma_filename_wf(t, next + 1);
            },
            None => {
                if identifier_end(t, next + 1) is Some {
                    lemma_steps_wf(t, next + 1);
                    let rest = (parse_steps(t, next + 1)->0).0;
                    let all = seq![action] + rest;
                    assert(all == (parse_steps(t, k)->0).0);
                    assert forall|i: int| 0 <= i < all.len() implies wf_action(
                        #[trigger] all[i],
                    ) by {
                        if i > 0 {
                            assert(all[i] == rest[i - 1]);
                        }
                    }
                }
            },
        }
    }
}

/// The header parameters that are read are well formed, and reading them
/// ends within the text.
pub proof fn lemma_header_parameters_wf(t: Seq<char>, k: int)
    requires
        0 <= k <= t.len(),
    ensures
        wf_header_parameters(parse_header_parameters(t, k).0),
        k <= parse_header_parameters(t, k).1 <= t.len(),
    decreases t.len() - k,
{
    if k < t.len() && t[k] == '-' {
        lemma_run_end(t, k + 1, CharClass::HeaderValue);
        let value_end = run_end(t, k + 1, CharClass::HeaderValue);
        lemma_header_parameters_wf(t, value_end);
        let value = t.subrange(k + 1, value_end);
        let first = HeaderParameterView { value, position: crate::parse::position_at(k + 1) };
        let rest = parse_header_parameters(t, value_end).0;
        let all = seq![first] + rest;
        assert forall|i: int| 0 <= i < value.len() implies in_class(
            CharClass::HeaderValue,
            #[trigger] value[i],
        ) by {
            assert(value[i] == t[k + 1 + i]);
        }
        assert forall|i: int| 0 <= i < all.len() implies is_run(
            (#[trigger] all[i]).value,
            CharClass::HeaderValue,
        ) by {
            if i > 0 {
                assert(all[i] == rest[i - 1]);
            }
        }
    }
}

/// A resource header that is read is well formed, and reading it takes
/// at least one character.
pub proof fn lemma_resource_header_wf(t: Seq<char>, k: int)
    requires
        0 <= k <= t.len(),
        crate::parse::parse_resource_header(t, k) is Some,
    ensures
        wf_resource_header((crate::parse::parse_resource_header(t, k)->0).0),
        k < (crate::parse::parse_resource_header(t, k)->0).1 <= t.len(),
{
    lemma_run_end(t, k, CharClass::Hyphen);
    let mark = run_end(t, k, CharClass::Hyphen);
    lemma_run_end(t, mark + 1, CharClass::Word);
    let name_end = run_end(t, mark + 1, CharClass::Word);
    lemma_header_parameters_wf(t, name_end);
    let name = t.subrange(mark + 1, name_end);
    assert forall|i: int| 0 <= i < name.len() implies in_class(
        CharClass::Word,
        #[trigger] name[i],
    ) by {
        assert(name[i] == t[mark + 1 + i]);
    }
}

/// A transform header that is read is well formed, and reading it takes
/// at least one character.
pub proof fn lemma_transform_header_wf(t: Seq<char>, k: int)
    requires
        0 <= k <= t.len(),
        crate::parse::parse_transform_header(t, k) is Some,
    ensures
        wf_transform_header((crate::parse::parse_transform_header(t, k)->0).0),
        k < (crate::parse::parse_transform_header(t, k)->0).1 <= t.len(),
{
    lemma_run_end(t, k, CharClass::Hyphen);
    let mark = run_end(t, k, CharClass::Hyphen);
    if t[mark] == '/' {
    } else {
        lemma_run_end(t, mark + 1, CharClass::Word);
        let name_end = run_end(t, mark + 1, CharClass::Word);
        lemma_header_parameters_wf(t, name_end);
        let name = t.subrange(mark, name_end);
        assert forall|i: int| 0 <= i < name.len() implies in_class(
            CharClass::Word,
            #[trigger] name[i],
        ) by {
            assert(name[i] == t[mark + i]);
        }
        assert(name[0] == t[mark]);
    }
}

/// A transform segment with a header that is read is well formed, and
/// reading it takes at least one character.
pub proof fn lemma_headed_transform_wf(t: Seq<char>, k: int)
    requires
        0 <= k <= t.len(),
        crate::parse::parse_headed_transform(t, k) is Some,
    ensures
        wf_headed_transform((crate::parse::parse_headed_transform(t, k)->0).0),
        k < (crate::parse::parse_headed_transform(t, k)->0).1 <= t.len(),
    decreases t.len() - k, 4int,
{
    lemma_transform_header_wf(t, k);
    let next = (crate::parse::parse_transform_header(t, k)->0).1;
    lemma_steps_wf(t, next);
}

/// A segment that is read is well formed, and reading it takes at least
/// one character.
pub proof fn lemma_segment_wf(t: Seq<char>, k: int)
    requires
        0 <= k <= t.len(),
        crate::parse::parse_segment(t, k) is Some,
    ensures
        wf_segment((crate::parse::parse_segment(t, k)->0).0),
        k < (crate::parse::parse_segment(t, k)->0).1 <= t.len(),
    decreases t.len() - k, 5int,
{
    match crate::parse::parse_resource_header(t, k) {
        Some((header, next)) => {
            lemma_resource_header_wf(t, k);
            lemma_path_wf(t, next);
        },
        None => {
            lemma_headed_transform_wf(t, k);
        },
    }
}

/// The segments that are read are well formed and at least one, and
/// reading them takes at least one character.
pub proof fn lemma_segments_wf(t: Seq<char>, k: int)
    requires
        0 <= k <= t.len(),
        crate::parse::parse_segments(t, k) is Some,
    ensures
        wf_segments((crate::parse::parse_segments(t, k)->0).0),
        (crate::parse::parse_segments(t, k)->0).0.len() > 0,
        k < (crate::parse::parse_segments(t, k)->0).1 <= t.len(),
    decreases t.len() - k, 6int,
{
    lemma_segment_wf(t, k);
    let first = (crate::parse::parse_segment(t, k)->0).0;
    let next = (crate::parse::parse_segment(t, k)->0).1;
    if next + 1 < t.len() && t[next] == '/' && t[next + 1] == '-' {
        lemma_segments_wf(t, next + 1);
        let rest = (crate::parse::parse_segments(t, next + 1)->0).0;
        let all = seq![first] + rest;
        assert(all == (crate::parse::parse_segments(t, k)->0).0);
        assert forall|i: int| 0 <= i < all.len() implies wf_segment(#[trigger] all[i]) by {
            if i > 0 {
                assert(all[i] == rest[i - 1]);
            }
        }
    } else {
        let all = seq![first];
        assert(all == (crate::parse::parse_segments(t, k)->0).0);
    }
}

/// A query that is read is of one of the forms of the grammar.
pub proof fn lemma_query_wf(t: Seq<char>, k: int, nested: bool)
    requires
        0 <= k <= t.len(),
        parse_query_at(t, k, nested) is Some,
    ensures
        wf_query((parse_query_at(t, k, nested)->0).0),
        k <= (parse_query_at(t, k, nested)->0).1 <= t.len(),
    decreases t.len() - k, 8int,
{
    let absolute = k < t.len() && t[k] == '/';
    let start = if absolute {
        k + 1
    } else {
        k
    };
    let plain = crate::parse::parse_plain_transform(t, start, absolute);
    let mixed = crate::parse::parse_resource_transform(t, start, absolute);
    let general = crate::parse::parse_general(t, start, absolute);
    if crate::parse::complete(t, plain, nested) {
        lemma_steps_wf(t, start);
        let q = (plain->0).0;
        assert(is_plain_transform(q));
    } else if crate::parse::complete(t, mixed, nested) {
        lemma_path_wf(t, start);
        let next = parse_path(t, start).1;
        lemma_headed_transform_wf(t, next + 1);
        let q = (mixed->0).0;
        assert(is_resource_transform(q));
    } else if crate::parse::complete(t, general, nested) {
        lemma_segments_wf(t, start);
        let q = (general->0).0;
        assert(is_general(q));
    } else {
    }
}

// ---------------------------------------------------------------------------
// The laws
// ---------------------------------------------------------------------------
/// Whether the query is one that the grammar gives.
pub open spec fn is_canonical(q: QueryView) -> bool {
    wf_query(q)
}

/// The text of a query that the grammar gives is read back as the query,
/// but for positions.
pub proof fn lemma_encode_then_parse(q: QueryView)
    requires
        is_canonical(q),
    ensures
        parse_query_text(encode_query(q)) is Some,
        bare_query(parse_query_text(encode_query(q))->0) == bare_query(q),
{
    let t = encode_query(q);
    assert(t.subrange(0, t.len() as int) =~= t);
    lemma_query_read(q, t, 0, false);
}

/// Every query that is read is one that the grammar gives.
pub proof fn lemma_parsed_is_canonical(s: Seq<char>)
    requires
        parse_query_text(s) is Some,
    ensures
        is_canonical(parse_query_text(s)->0),
{
    lemma_query_wf(s, 0, false);
}

/// Reading, writing and reading again gives what reading gave: for every
/// text that is a query, the text of the query that it is read as is read
/// as the same query, but for positions.
pub proof fn lemma_parse_encode_parse(s: Seq<char>)
    requires
        parse_query_text(s) is Some,
    ensures
        parse_query_text(encode_query(parse_query_text(s)->0)) is Some,
        bare_query(parse_query_text(encode_query(parse_query_text(s)->0))->0) == bare_query(
            parse_query_text(s)->0,
        ),
{
    lemma_parsed_is_canonical(s);
    lemma_encode_then_parse(parse_query_text(s)->0);
}

// ---------------------------------------------------------------------------
// Keys as they were written
// ---------------------------------------------------------------------------
/// What was read as names after a `/` each is the text of those names.
pub proof fn lemma_more_names_text(t: Seq<char>, k: int)
    requires
        0 <= k <= t.len(),
    ensures
        k <= parse_more_names(t, k).1 <= t.len(),
        t.subrange(k, parse_more_names(t, k).1) == tail(
            name_texts(parse_more_names(t, k).0),
            0,
            seq!['/'],
        ),
    decreases t.len() - k,
{
    let (names, end) = parse_more_names(t, k);
    if k < t.len() && t[k] == '/' {
        lemma_run_end(t, k + 1, CharClass::Name);
        match parse_name(t, k + 1) {
            Some((name, next)) => {
                lemma_more_names_text(t, next);
                let rest = parse_more_names(t, next).0;
                assert(names == seq![name] + rest);
                let texts = name_texts(names);
                assert(texts[0] == name.name);
                assert(texts.drop_first() =~= name_texts(rest));
                lemma_tail_shift(texts, 0, seq!['/']);
                assert(tail(texts, 0, seq!['/']) == seq!['/'] + name.name + tail(
                    texts,
                    1,
                    seq!['/'],
                ));
                assert(t.subrange(k, end) =~= seq!['/'] + t.subrange(k + 1, next) + t.subrange(
                    next,
                    end,
                ));
            },
            None => {
                assert(t.subrange(k, k) =~= Seq::<char>::empty());
                assert(name_texts(names) =~= Seq::<Seq<char>>::empty());
            },
        }
    } else {
        assert(t.subrange(k, k) =~= Seq::<char>::empty());
        assert(name_texts(names) =~= Seq::<Seq<char>>::empty());
    }
}

/// The text of a key that was read is the text that it was read from: for
/// every text that is a key, writing the key gives the text again.
pub proof fn lemma_key_text_roundtrip(s: Seq<char>)
    requires
        parse_key_text(s) is Some,
    ensures
        encode_key(parse_key_text(s)->0) == s,
{
    let names = parse_path(s, 0).0;
    lemma_run_end(s, 0, CharClass::Name);
    match parse_name(s, 0) {
        Some((name, next)) => {
            lemma_more_names_text(s, next);
            let rest = parse_more_names(s, next).0;
            assert(names == seq![name] + rest);
            let texts = name_texts(names);
            assert(texts[0] == name.name);
            assert(texts.drop_first() =~= name_texts(rest));
            lemma_tail_shift(texts, 0, seq!['/']);
            lemma_join_tail(texts, seq!['/']);
            assert(s =~= s.subrange(0, next) + s.subrange(next, s.len() as int));
        },
        None => {
            assert(name_texts(names) =~= Seq::<Seq<char>>::empty());
            assert(s =~= Seq::<char>::empty());
        },
    }
}

/// A key with one more name, without its last name, is the key.
pub proof fn lemma_join_parent(key: Seq<ResourceNameView>, name: ResourceNameView)
    ensures
        crate::query::parent_of(key.push(name)) == key,
{
    assert(key.push(name).drop_last() =~= key);
}

} // verus!
