//! The syntax tree of a query and its canonical text.
//!
//! Every node has a view: the same tree over mathematical sequences. The
//! text of a node is a function of that view alone and never shows a
//! position.
use crate::text::{
    begins_with, chars_of, decimal, decimal_string, has_at, join, join_strings, lemma_join_push,
    matches_at, same_text, string_of, texts,
};
use vstd::prelude::*;
use vstd::string::StringExecFns;

verus! {

/// Place in the query text where a node of the syntax tree begins.
///
/// A position whose `line` is zero stands for "unknown".
#[derive(Debug, Clone, Copy)]
pub struct Position {
    pub offset: usize,
    pub line: u32,
    pub column: usize,
}

impl Position {
    pub fn new(offset: usize, line: u32, column: usize) -> (p: Position)
        ensures
            p.offset == offset,
            p.line == line,
            p.column == column,
    {
        Position { offset, line, column }
    }

    /// The position that stands for "not known".
    pub open spec fn spec_unknown() -> Position {
        Position { offset: 0, line: 0, column: 0 }
    }

    #[verifier::when_used_as_spec(spec_unknown)]
    pub fn unknown() -> (p: Position)
        ensures
            p == Position::spec_unknown(),
    {
        Position { offset: 0, line: 0, column: 0 }
    }

    pub open spec fn spec_is_unknown(&self) -> bool {
        self.line == 0
    }

    #[verifier::when_used_as_spec(spec_is_unknown)]
    pub fn is_unknown(&self) -> (r: bool)
        ensures
            r == (self.line == 0),
    {
        self.line == 0
    }

    /// What a message shows for this position.
    pub open spec fn text(&self) -> Seq<char> {
        if self.line == 0 {
            "(unknown position)"@
        } else if self.line > 1 {
            "line "@ + decimal(self.line as nat) + ", position "@ + decimal(self.column as nat)
        } else {
            "position "@ + decimal(self.column as nat)
        }
    }

    pub fn to_string(&self) -> (s: String)
        ensures
            s@ == self.text(),
    {
        if self.line == 0 {
            String::from_str("(unknown position)")
        } else if self.line > 1 {
            let line = decimal_string(self.line as u64);
            let column = decimal_string(self.column as u64);
            String::from_str("line ").concat(line.as_str()).concat(", position ").concat(
                column.as_str(),
            )
        } else {
            let column = decimal_string(self.column as u64);
            String::from_str("position ").concat(column.as_str())
        }
    }
}

impl Default for Position {
    fn default() -> (p: Position)
        ensures
            p == Position::spec_unknown(),
    {
        Position::unknown()
    }
}

// ---------------------------------------------------------------------------
// Views
// ---------------------------------------------------------------------------
pub enum ActionParameterView {
    String(Seq<char>, Position),
    Link(QueryView, Position),
}

pub struct ResourceNameView {
    pub name: Seq<char>,
    pub position: Position,
}

pub struct ActionRequestView {
    pub name: Seq<char>,
    pub parameters: Seq<ActionParameterView>,
    pub position: Position,
}

pub struct HeaderParameterView {
    pub value: Seq<char>,
    pub position: Position,
}

pub struct SegmentHeaderView {
    pub name: Seq<char>,
    pub level: nat,
    pub parameters: Seq<HeaderParameterView>,
    pub resource: bool,
    pub position: Position,
}

pub struct TransformQuerySegmentView {
    pub header: Option<SegmentHeaderView>,
    pub query: Seq<ActionRequestView>,
    pub filename: Option<ResourceNameView>,
}

pub struct ResourceQuerySegmentView {
    pub header: Option<SegmentHeaderView>,
    pub key: Seq<ResourceNameView>,
}

pub enum QuerySegmentView {
    Resource(ResourceQuerySegmentView),
    Transform(TransformQuerySegmentView),
}

pub struct QueryView {
    pub segments: Seq<QuerySegmentView>,
    pub absolute: bool,
}

// ---------------------------------------------------------------------------
// The tree
// ---------------------------------------------------------------------------
/// One parameter of an action: text, or a link to a query whose result is
/// the parameter.
#[derive(Debug)]
pub enum ActionParameter {
    String(String, Position),
    Link(Query, Position),
}

/// One segment of a resource path.
#[derive(Debug)]
pub struct ResourceName {
    pub name: String,
    pub position: Position,
}

/// A named action with its parameters.
#[derive(Debug)]
pub struct ActionRequest {
    pub name: String,
    pub parameters: Vec<ActionParameter>,
    pub position: Position,
}

#[derive(Debug)]
pub struct HeaderParameter {
    pub value: String,
    pub position: Position,
}

/// Header of a query segment. The encoded header begins with `level + 1`
/// hyphens.
#[derive(Debug)]
pub struct SegmentHeader {
    pub name: String,
    pub level: usize,
    pub parameters: Vec<HeaderParameter>,
    pub resource: bool,
    pub position: Position,
}

/// A chain of actions, optionally ended by a filename.
#[derive(Debug)]
pub struct TransformQuerySegment {
    pub header: Option<SegmentHeader>,
    pub query: Vec<ActionRequest>,
    pub filename: Option<ResourceName>,
}

/// The path of a resource in a store.
#[derive(Debug)]
pub struct Key(pub Vec<ResourceName>);

#[derive(Debug)]
pub struct ResourceQuerySegment {
    pub header: Option<SegmentHeader>,
    pub key: Key,
}

#[derive(Debug)]
pub enum QuerySegment {
    Resource(ResourceQuerySegment),
    Transform(TransformQuerySegment),
}

#[derive(Debug)]
pub struct Query {
    pub segments: Vec<QuerySegment>,
    pub absolute: bool,
}

// ---------------------------------------------------------------------------
// From the tree to its view
// ---------------------------------------------------------------------------
pub open spec fn parameter_view(p: ActionParameter) -> ActionParameterView
    decreases p,
{
    match p {
        ActionParameter::String(s, position) => ActionParameterView::String(s@, position),
        ActionParameter::Link(q, position) => ActionParameterView::Link(query_view(q), position),
    }
}

pub open spec fn parameters_view(ps: Seq<ActionParameter>) -> Seq<ActionParameterView>
    decreases ps,
{
    Seq::new(
        ps.len(),
        |i: int|
            if 0 <= i < ps.len() {
                parameter_view(ps[i])
            } else {
                arbitrary()
            },
    )
}

pub open spec fn action_view(a: ActionRequest) -> ActionRequestView
    decreases a,
{
    ActionRequestView {
        name: a.name@,
        parameters: parameters_view(a.parameters@),
        position: a.position,
    }
}

pub open spec fn actions_view(actions: Seq<ActionRequest>) -> Seq<ActionRequestView>
    decreases actions,
{
    Seq::new(
        actions.len(),
        |i: int|
            if 0 <= i < actions.len() {
                action_view(actions[i])
            } else {
                arbitrary()
            },
    )
}

pub open spec fn names_view(names: Seq<ResourceName>) -> Seq<ResourceNameView> {
    Seq::new(names.len(), |i: int| names[i]@)
}

pub open spec fn header_parameters_view(ps: Seq<HeaderParameter>) -> Seq<HeaderParameterView> {
    Seq::new(ps.len(), |i: int| ps[i]@)
}

pub open spec fn option_header_view(h: Option<SegmentHeader>) -> Option<SegmentHeaderView> {
    match h {
        Some(h) => Some(h@),
        None => None,
    }
}

pub open spec fn option_name_view(n: Option<ResourceName>) -> Option<ResourceNameView> {
    match n {
        Some(n) => Some(n@),
        None => None,
    }
}

pub open spec fn transform_view(t: TransformQuerySegment) -> TransformQuerySegmentView
    decreases t,
{
    TransformQuerySegmentView {
        header: option_header_view(t.header),
        query: actions_view(t.query@),
        filename: option_name_view(t.filename),
    }
}

pub open spec fn segment_view(s: QuerySegment) -> QuerySegmentView
    decreases s,
{
    match s {
        QuerySegment::Resource(r) => QuerySegmentView::Resource(r@),
        QuerySegment::Transform(t) => QuerySegmentView::Transform(transform_view(t)),
    }
}

pub open spec fn segments_view(segments: Seq<QuerySegment>) -> Seq<QuerySegmentView>
    decreases segments,
{
    Seq::new(
        segments.len(),
        |i: int|
            if 0 <= i < segments.len() {
                segment_view(segments[i])
            } else {
                arbitrary()
            },
    )
}

pub open spec fn query_view(q: Query) -> QueryView
    decreases q,
{
    QueryView { segments: segments_view(q.segments@), absolute: q.absolute }
}

impl View for ActionParameter {
    type V = ActionParameterView;

    open spec fn view(&self) -> ActionParameterView {
        parameter_view(*self)
    }
}

impl View for ResourceName {
    type V = ResourceNameView;

    open spec fn view(&self) -> ResourceNameView {
        ResourceNameView { name: self.name@, position: self.position }
    }
}

impl View for ActionRequest {
    type V = ActionRequestView;

    open spec fn view(&self) -> ActionRequestView {
        action_view(*self)
    }
}

impl View for HeaderParameter {
    type V = HeaderParameterView;

    open spec fn view(&self) -> HeaderParameterView {
        HeaderParameterView { value: self.value@, position: self.position }
    }
}

impl View for SegmentHeader {
    type V = SegmentHeaderView;

    open spec fn view(&self) -> SegmentHeaderView {
        SegmentHeaderView {
            name: self.name@,
            level: self.level as nat,
            parameters: header_parameters_view(self.parameters@),
            resource: self.resource,
            position: self.position,
        }
    }
}

impl View for TransformQuerySegment {
    type V = TransformQuerySegmentView;

    open spec fn view(&self) -> TransformQuerySegmentView {
        transform_view(*self)
    }
}

impl View for Key {
    type V = Seq<ResourceNameView>;

    open spec fn view(&self) -> Seq<ResourceNameView> {
        names_view(self.0@)
    }
}

impl View for ResourceQuerySegment {
    type V = ResourceQuerySegmentView;

    open spec fn view(&self) -> ResourceQuerySegmentView {
        ResourceQuerySegmentView { header: option_header_view(self.header), key: self.key@ }
    }
}

impl View for QuerySegment {
    type V = QuerySegmentView;

    open spec fn view(&self) -> QuerySegmentView {
        segment_view(*self)
    }
}

impl View for Query {
    type V = QueryView;

    open spec fn view(&self) -> QueryView {
        query_view(*self)
    }
}

// ---------------------------------------------------------------------------
// The text of a token
// ---------------------------------------------------------------------------
pub open spec fn is_alpha(c: char) -> bool {
    ('a' <= c && c <= 'z') || ('A' <= c && c <= 'Z')
}

pub open spec fn is_digit(c: char) -> bool {
    '0' <= c && c <= '9'
}

pub open spec fn is_alnum(c: char) -> bool {
    is_alpha(c) || is_digit(c)
}

/// Characters that a string parameter shows as they are.
pub open spec fn is_plain(c: char) -> bool {
    is_alnum(c) || c == '_' || c == '+' || c == '.'
}

pub open spec fn https_text() -> Seq<char> {
    seq!['h', 't', 't', 'p', 's', ':', '/', '/']
}

pub open spec fn http_text() -> Seq<char> {
    seq!['h', 't', 't', 'p', ':', '/', '/']
}

pub open spec fn file_text() -> Seq<char> {
    seq!['f', 'i', 'l', 'e', ':', '/', '/']
}

pub open spec fn protocol_text() -> Seq<char> {
    seq![':', '/', '/']
}

/// What one character of a token becomes where no longer escape applies.
pub open spec fn escape_char(c: char) -> Seq<char> {
    if c == '~' {
        seq!['~', '~']
    } else if c == '-' {
        seq!['~', '_']
    } else if c == '/' {
        seq!['~', '/']
    } else if c == ' ' {
        seq!['~', '.']
    } else {
        seq![c]
    }
}

/// The escaped form of `s[i..]`. At each place the longest escape of the
/// table that fits is taken.
pub open spec fn escape_from(s: Seq<char>, i: int) -> Seq<char>
    decreases s.len() - i,
{
    if i < 0 || i >= s.len() {
        Seq::empty()
    } else if has_at(s, i, https_text()) {
        seq!['~', 'H'] + escape_from(s, i + 8)
    } else if has_at(s, i, http_text()) {
        seq!['~', 'h'] + escape_from(s, i + 7)
    } else if has_at(s, i, file_text()) {
        seq!['~', 'f'] + escape_from(s, i + 7)
    } else if has_at(s, i, protocol_text()) {
        seq!['~', 'P'] + escape_from(s, i + 3)
    } else {
        escape_char(s[i]) + escape_from(s, i + 1)
    }
}

/// The escaped form of a token.
pub open spec fn escape(s: Seq<char>) -> Seq<char> {
    escape_from(s, 0)
}

/// Escapes a token so that it can stand in a query as a parameter.
pub fn encode_token(text: &str) -> (encoded: String)
    ensures
        encoded@ == escape(text@),
{
    let s = chars_of(text);
    let https: Vec<char> = vec!['h', 't', 't', 'p', 's', ':', '/', '/'];
    let http: Vec<char> = vec!['h', 't', 't', 'p', ':', '/', '/'];
    let file: Vec<char> = vec!['f', 'i', 'l', 'e', ':', '/', '/'];
    let protocol: Vec<char> = vec![':', '/', '/'];
    assert(https@ =~= https_text());
    assert(http@ =~= http_text());
    assert(file@ =~= file_text());
    assert(protocol@ =~= protocol_text());
    let mut out = String::new();
    let mut i: usize = 0;
    while i < s.len()
        invariant
            i <= s.len(),
            https@ == https_text(),
            http@ == http_text(),
            file@ == file_text(),
            protocol@ == protocol_text(),
            escape(s@) == out@ + escape_from(s@, i as int),
        decreases s.len() - i,
    {
        let ghost before = out@;
        if matches_at(&s, i, &https) {
            out.push('~');
            out.push('H');
            assert(out@ =~= before + seq!['~', 'H']);
            i += 8;
        } else if matches_at(&s, i, &http) {
            out.push('~');
            out.push('h');
            assert(out@ =~= before + seq!['~', 'h']);
            i += 7;
        } else if matches_at(&s, i, &file) {
            out.push('~');
            out.push('f');
            assert(out@ =~= before + seq!['~', 'f']);
            i += 7;
        } else if matches_at(&s, i, &protocol) {
            out.push('~');
            out.push('P');
            assert(out@ =~= before + seq!['~', 'P']);
            i += 3;
        } else {
            let c = s[i];
            if c == '~' {
                out.push('~');
                out.push('~');
            } else if c == '-' {
                out.push('~');
                out.push('_');
            } else if c == '/' {
                out.push('~');
                out.push('/');
            } else if c == ' ' {
                out.push('~');
                out.push('.');
            } else {
                out.push(c);
            }
            assert(out@ =~= before + escape_char(c));
            i += 1;
        }
        assert(escape(s@) =~= out@ + escape_from(s@, i as int));
    }
    assert(escape_from(s@, i as int) =~= Seq::<char>::empty());
    assert(out@ + Seq::<char>::empty() =~= out@);
    out
}

// ---------------------------------------------------------------------------
// The text of a tree
// ---------------------------------------------------------------------------
pub open spec fn encode_parameter(p: ActionParameterView) -> Seq<char>
    decreases p,
{
    match p {
        ActionParameterView::String(s, _) => escape(s),
        ActionParameterView::Link(q, _) => seq!['~', 'X', '~'] + encode_query(q) + seq!['~', 'E'],
    }
}

pub open spec fn encode_parameters(ps: Seq<ActionParameterView>) -> Seq<Seq<char>>
    decreases ps,
{
    Seq::new(
        ps.len(),
        |i: int|
            if 0 <= i < ps.len() {
                encode_parameter(ps[i])
            } else {
                arbitrary()
            },
    )
}

pub open spec fn encode_action(a: ActionRequestView) -> Seq<char>
    decreases a,
{
    if a.parameters.len() == 0 {
        a.name
    } else {
        a.name + seq!['-'] + join(encode_parameters(a.parameters), seq!['-'])
    }
}

pub open spec fn encode_actions(actions: Seq<ActionRequestView>) -> Seq<Seq<char>>
    decreases actions,
{
    Seq::new(
        actions.len(),
        |i: int|
            if 0 <= i < actions.len() {
                encode_action(actions[i])
            } else {
                arbitrary()
            },
    )
}

/// `n` hyphens.
pub open spec fn hyphens(n: nat) -> Seq<char> {
    Seq::new(n, |i: int| '-')
}

/// Each parameter of a header after a hyphen of its own.
pub open spec fn encode_header_parameters(ps: Seq<HeaderParameterView>) -> Seq<char>
    decreases ps.len(),
{
    if ps.len() == 0 {
        Seq::empty()
    } else {
        encode_header_parameters(ps.drop_last()) + seq!['-'] + ps.last().value
    }
}

pub open spec fn encode_header(h: SegmentHeaderView) -> Seq<char> {
    hyphens(h.level + 1) + (if h.resource {
        seq!['R']
    } else {
        Seq::empty()
    }) + h.name + encode_header_parameters(h.parameters)
}

/// The names of a path.
pub open spec fn name_texts(names: Seq<ResourceNameView>) -> Seq<Seq<char>> {
    Seq::new(names.len(), |i: int| names[i].name)
}

pub open spec fn encode_key(names: Seq<ResourceNameView>) -> Seq<char> {
    join(name_texts(names), seq!['/'])
}

pub open spec fn encode_transform(t: TransformQuerySegmentView) -> Seq<char>
    decreases t,
{
    let actions = join(encode_actions(t.query), seq!['/']);
    let body = match t.filename {
        Some(filename) => if actions.len() == 0 {
            filename.name
        } else {
            actions + seq!['/'] + filename.name
        },
        None => actions,
    };
    match t.header {
        Some(header) => if body.len() == 0 {
            encode_header(header)
        } else {
            encode_header(header) + seq!['/'] + body
        },
        None => body,
    }
}

pub open spec fn encode_resource(r: ResourceQuerySegmentView) -> Seq<char> {
    match r.header {
        Some(header) => encode_header(header) + seq!['/'] + encode_key(r.key),
        None => encode_key(r.key),
    }
}

pub open spec fn encode_segment(s: QuerySegmentView) -> Seq<char>
    decreases s,
{
    match s {
        QuerySegmentView::Resource(r) => encode_resource(r),
        QuerySegmentView::Transform(t) => encode_transform(t),
    }
}

pub open spec fn encode_segments(segments: Seq<QuerySegmentView>) -> Seq<Seq<char>>
    decreases segments,
{
    Seq::new(
        segments.len(),
        |i: int|
            if 0 <= i < segments.len() {
                encode_segment(segments[i])
            } else {
                arbitrary()
            },
    )
}

impl QueryView {
    /// Exactly one segment, and that a resource segment.
    pub open spec fn is_resource_query(self) -> bool {
        self.segments.len() == 1 && self.segments[0] is Resource
    }

    /// Exactly one segment, and that a transform segment.
    pub open spec fn is_transform_query(self) -> bool {
        self.segments.len() == 1 && self.segments[0] is Transform
    }
}

/// The canonical text of a query: the segments joined by `/`; `-R/` before
/// a lone resource segment that shows no header of its own; and a leading
/// `/` where the query is absolute.
pub open spec fn encode_query(q: QueryView) -> Seq<char>
    decreases q,
{
    let body = join(encode_segments(q.segments), seq!['/']);
    let shown = if q.is_resource_query() && !(body.len() > 0 && body[0] == '-') {
        seq!['-', 'R', '/'] + body
    } else {
        body
    };
    if q.absolute {
        seq!['/'] + shown
    } else {
        shown
    }
}

// ---------------------------------------------------------------------------
// Copies
// ---------------------------------------------------------------------------
fn clone_parameter(p: &ActionParameter) -> (r: ActionParameter)
    ensures
        r@ == p@,
    decreases p,
{
    match p {
        ActionParameter::String(s, position) => ActionParameter::String(s.clone(), *position),
        ActionParameter::Link(q, position) => ActionParameter::Link(clone_query(q), *position),
    }
}

fn clone_parameters(ps: &Vec<ActionParameter>) -> (r: Vec<ActionParameter>)
    ensures
        parameters_view(r@) == parameters_view(ps@),
    decreases ps,
{
    let mut out: Vec<ActionParameter> = Vec::new();
    let mut i: usize = 0;
    while i < ps.len()
        invariant
            i <= ps.len(),
            out.len() == i,
            forall|j: int| 0 <= j < i ==> out@[j]@ == ps@[j]@,
        decreases ps.len() - i,
    {
        out.push(clone_parameter(&ps[i]));
        i += 1;
    }
    assert(parameters_view(out@) =~= parameters_view(ps@));
    out
}

fn clone_action(a: &ActionRequest) -> (r: ActionRequest)
    ensures
        r@ == a@,
    decreases a,
{
    ActionRequest {
        name: a.name.clone(),
        parameters: clone_parameters(&a.parameters),
        position: a.position,
    }
}

fn clone_actions(actions: &Vec<ActionRequest>) -> (r: Vec<ActionRequest>)
    ensures
        actions_view(r@) == actions_view(actions@),
    decreases actions,
{
    let mut out: Vec<ActionRequest> = Vec::new();
    let mut i: usize = 0;
    while i < actions.len()
        invariant
            i <= actions.len(),
            out.len() == i,
            forall|j: int| 0 <= j < i ==> out@[j]@ == actions@[j]@,
        decreases actions.len() - i,
    {
        out.push(clone_action(&actions[i]));
        i += 1;
    }
    assert(actions_view(out@) =~= actions_view(actions@));
    out
}

fn clone_names(names: &Vec<ResourceName>) -> (r: Vec<ResourceName>)
    ensures
        names_view(r@) == names_view(names@),
{
    let mut out: Vec<ResourceName> = Vec::new();
    let mut i: usize = 0;
    while i < names.len()
        invariant
            i <= names.len(),
            out.len() == i,
            forall|j: int| 0 <= j < i ==> out@[j]@ == names@[j]@,
        decreases names.len() - i,
    {
        out.push(names[i].clone());
        i += 1;
    }
    assert(names_view(out@) =~= names_view(names@));
    out
}

fn clone_header_parameters(ps: &Vec<HeaderParameter>) -> (r: Vec<HeaderParameter>)
    ensures
        header_parameters_view(r@) == header_parameters_view(ps@),
{
    let mut out: Vec<HeaderParameter> = Vec::new();
    let mut i: usize = 0;
    while i < ps.len()
        invariant
            i <= ps.len(),
            out.len() == i,
            forall|j: int| 0 <= j < i ==> out@[j]@ == ps@[j]@,
        decreases ps.len() - i,
    {
        out.push(ps[i].clone());
        i += 1;
    }
    assert(header_parameters_view(out@) =~= header_parameters_view(ps@));
    out
}

fn clone_option_header(h: &Option<SegmentHeader>) -> (r: Option<SegmentHeader>)
    ensures
        option_header_view(r) == option_header_view(*h),
{
    match h {
        Some(h) => Some(h.clone()),
        None => None,
    }
}

fn clone_option_name(n: &Option<ResourceName>) -> (r: Option<ResourceName>)
    ensures
        option_name_view(r) == option_name_view(*n),
{
    match n {
        Some(n) => Some(n.clone()),
        None => None,
    }
}

fn clone_transform(t: &TransformQuerySegment) -> (r: TransformQuerySegment)
    ensures
        r@ == t@,
    decreases t,
{
    TransformQuerySegment {
        header: clone_option_header(&t.header),
        query: clone_actions(&t.query),
        filename: clone_option_name(&t.filename),
    }
}

fn clone_segment(s: &QuerySegment) -> (r: QuerySegment)
    ensures
        r@ == s@,
    decreases s,
{
    match s {
        QuerySegment::Resource(r) => QuerySegment::Resource(r.clone()),
        QuerySegment::Transform(t) => QuerySegment::Transform(clone_transform(t)),
    }
}

fn clone_segments(segments: &Vec<QuerySegment>) -> (r: Vec<QuerySegment>)
    ensures
        segments_view(r@) == segments_view(segments@),
    decreases segments,
{
    let mut out: Vec<QuerySegment> = Vec::new();
    let mut i: usize = 0;
    while i < segments.len()
        invariant
            i <= segments.len(),
            out.len() == i,
            forall|j: int| 0 <= j < i ==> out@[j]@ == segments@[j]@,
        decreases segments.len() - i,
    {
        out.push(clone_segment(&segments[i]));
        i += 1;
    }
    assert(segments_view(out@) =~= segments_view(segments@));
    out
}

fn clone_query(q: &Query) -> (r: Query)
    ensures
        r@ == q@,
    decreases q,
{
    Query { segments: clone_segments(&q.segments), absolute: q.absolute }
}

impl Clone for ActionParameter {
    fn clone(&self) -> (r: Self)
        ensures
            r@ == self@,
    {
        clone_parameter(self)
    }
}

impl Clone for ResourceName {
    fn clone(&self) -> (r: Self)
        ensures
            r@ == self@,
    {
        ResourceName { name: self.name.clone(), position: self.position }
    }
}

impl Clone for ActionRequest {
    fn clone(&self) -> (r: Self)
        ensures
            r@ == self@,
    {
        clone_action(self)
    }
}

impl Clone for HeaderParameter {
    fn clone(&self) -> (r: Self)
        ensures
            r@ == self@,
    {
        HeaderParameter { value: self.value.clone(), position: self.position }
    }
}

impl Clone for SegmentHeader {
    fn clone(&self) -> (r: Self)
        ensures
            r@ == self@,
    {
        SegmentHeader {
            name: self.name.clone(),
            level: self.level,
            parameters: clone_header_parameters(&self.parameters),
            resource: self.resource,
            position: self.position,
        }
    }
}

impl Clone for TransformQuerySegment {
    fn clone(&self) -> (r: Self)
        ensures
            r@ == self@,
    {
        clone_transform(self)
    }
}

impl Clone for Key {
    fn clone(&self) -> (r: Self)
        ensures
            r@ == self@,
    {
        Key(clone_names(&self.0))
    }
}

impl Clone for ResourceQuerySegment {
    fn clone(&self) -> (r: Self)
        ensures
            r@ == self@,
    {
        ResourceQuerySegment { header: clone_option_header(&self.header), key: self.key.clone() }
    }
}

impl Clone for QuerySegment {
    fn clone(&self) -> (r: Self)
        ensures
            r@ == self@,
    {
        clone_segment(self)
    }
}

impl Clone for Query {
    fn clone(&self) -> (r: Self)
        ensures
            r@ == self@,
    {
        clone_query(self)
    }
}

// ---------------------------------------------------------------------------
// What the views say
// ---------------------------------------------------------------------------
/// The name of the namespace directive.
pub open spec fn ns_name() -> Seq<char> {
    seq!['n', 's']
}

/// The place of the last `c` in `s`.
pub open spec fn last_index_of(s: Seq<char>, c: char) -> Option<int>
    decreases s.len(),
{
    if s.len() == 0 {
        None
    } else if s.last() == c {
        Some(s.len() - 1)
    } else {
        last_index_of(s.drop_last(), c)
    }
}

/// What follows the last `.` of a name; nothing where the name has no `.`.
pub open spec fn extension_of(name: Seq<char>) -> Option<Seq<char>> {
    match last_index_of(name, '.') {
        Some(i) => Some(name.subrange(i + 1, name.len() as int)),
        None => None,
    }
}

/// The parameters of the last namespace directive among `actions`.
pub open spec fn last_ns_of(actions: Seq<ActionRequestView>) -> Option<Seq<ActionParameterView>>
    decreases actions.len(),
{
    if actions.len() == 0 {
        None
    } else if actions.last().is_ns() {
        Some(actions.last().parameters)
    } else {
        last_ns_of(actions.drop_last())
    }
}

impl ActionParameterView {
    pub open spec fn position(self) -> Position {
        match self {
            ActionParameterView::String(_, position) => position,
            ActionParameterView::Link(_, position) => position,
        }
    }
}

impl ActionRequestView {
    pub open spec fn is_ns(self) -> bool {
        self.name == ns_name()
    }

    pub open spec fn ns(self) -> Option<Seq<ActionParameterView>> {
        if self.is_ns() {
            Some(self.parameters)
        } else {
            None
        }
    }
}

impl SegmentHeaderView {
    pub open spec fn is_trivial(self) -> bool {
        self.name.len() == 0 && self.level == 0 && self.parameters.len() == 0
    }
}

impl TransformQuerySegmentView {
    pub open spec fn is_empty(self) -> bool {
        self.query.len() == 0 && self.filename is None
    }

    pub open spec fn is_filename(self) -> bool {
        self.query.len() == 0 && self.filename is Some
    }

    pub open spec fn is_action_request(self) -> bool {
        self.query.len() == 1 && self.filename is None
    }

    pub open spec fn action(self) -> Option<ActionRequestView> {
        if self.is_action_request() {
            Some(self.query[0])
        } else {
            None
        }
    }

    pub open spec fn is_ns(self) -> bool {
        self.is_action_request() && self.query[0].is_ns()
    }

    pub open spec fn ns(self) -> Option<Seq<ActionParameterView>> {
        if self.is_ns() {
            Some(self.query[0].parameters)
        } else {
            None
        }
    }

    pub open spec fn last_ns(self) -> Option<Seq<ActionParameterView>> {
        last_ns_of(self.query)
    }

    /// The segment that does all of `self` and then all of `rhs`: the header
    /// of `self`, the actions of both, the filename of `rhs`.
    pub open spec fn add(self, rhs: TransformQuerySegmentView) -> TransformQuerySegmentView {
        TransformQuerySegmentView {
            header: self.header,
            query: self.query + rhs.query,
            filename: rhs.filename,
        }
    }

    /// The segment without its last step, and that last step as a segment of
    /// its own. The last step is the filename where there is one, else the
    /// last action. Both keep the header. An empty segment has neither.
    pub open spec fn predecessor(self) -> (
        Option<TransformQuerySegmentView>,
        Option<TransformQuerySegmentView>,
    ) {
        if self.filename is Some {
            (
                Some(
                    TransformQuerySegmentView {
                        header: self.header,
                        query: self.query,
                        filename: None,
                    },
                ),
                Some(
                    TransformQuerySegmentView {
                        header: self.header,
                        query: Seq::empty(),
                        filename: self.filename,
                    },
                ),
            )
        } else if self.query.len() == 0 {
            (None, None)
        } else {
            (
                Some(
                    TransformQuerySegmentView {
                        header: self.header,
                        query: self.query.drop_last(),
                        filename: None,
                    },
                ),
                Some(
                    TransformQuerySegmentView {
                        header: self.header,
                        query: seq![self.query.last()],
                        filename: None,
                    },
                ),
            )
        }
    }
}

impl ResourceQuerySegmentView {
    pub open spec fn position(self) -> Position {
        match self.header {
            Some(header) => header.position,
            None => if self.key.len() == 0 {
                Position::spec_unknown()
            } else {
                self.key[0].position
            },
        }
    }

    pub open spec fn filename(self) -> Option<ResourceNameView> {
        if self.key.len() == 0 {
            None
        } else {
            Some(self.key.last())
        }
    }
}

impl QuerySegmentView {
    /// The number of actions of a transform segment, of names of a resource
    /// segment.
    pub open spec fn len(self) -> nat {
        match self {
            QuerySegmentView::Resource(r) => r.key.len(),
            QuerySegmentView::Transform(t) => t.query.len(),
        }
    }

    pub open spec fn is_ns(self) -> bool {
        match self {
            QuerySegmentView::Resource(_) => false,
            QuerySegmentView::Transform(t) => t.is_ns(),
        }
    }

    pub open spec fn ns(self) -> Option<Seq<ActionParameterView>> {
        match self {
            QuerySegmentView::Resource(_) => None,
            QuerySegmentView::Transform(t) => t.ns(),
        }
    }

    pub open spec fn last_ns(self) -> Option<Seq<ActionParameterView>> {
        match self {
            QuerySegmentView::Resource(_) => None,
            QuerySegmentView::Transform(t) => t.last_ns(),
        }
    }
}

impl QueryView {
    pub open spec fn filename(self) -> Option<ResourceNameView> {
        if self.segments.len() == 0 {
            None
        } else {
            match self.segments.last() {
                QuerySegmentView::Transform(t) => t.filename,
                QuerySegmentView::Resource(r) => r.filename(),
            }
        }
    }

    pub open spec fn extension(self) -> Option<Seq<char>> {
        match self.filename() {
            Some(name) => extension_of(name.name),
            None => None,
        }
    }

    pub open spec fn is_empty(self) -> bool {
        self.segments.len() == 0
    }

    pub open spec fn transform_query(self) -> Option<TransformQuerySegmentView> {
        if self.segments.len() == 1 {
            match self.segments[0] {
                QuerySegmentView::Transform(t) => Some(t),
                _ => None,
            }
        } else {
            None
        }
    }

    pub open spec fn resource_query(self) -> Option<ResourceQuerySegmentView> {
        if self.segments.len() == 1 {
            match self.segments[0] {
                QuerySegmentView::Resource(r) => Some(r),
                _ => None,
            }
        } else {
            None
        }
    }

    pub open spec fn is_ns(self) -> bool {
        match self.transform_query() {
            Some(t) => t.is_ns(),
            None => false,
        }
    }

    pub open spec fn ns(self) -> Option<Seq<ActionParameterView>> {
        match self.transform_query() {
            Some(t) => t.ns(),
            None => None,
        }
    }

    pub open spec fn last_ns(self) -> Option<Seq<ActionParameterView>> {
        match self.transform_query() {
            Some(t) => t.last_ns(),
            None => None,
        }
    }

    pub open spec fn is_action_request(self) -> bool {
        match self.transform_query() {
            Some(t) => t.is_action_request(),
            None => false,
        }
    }

    pub open spec fn action(self) -> Option<ActionRequestView> {
        match self.transform_query() {
            Some(t) => t.action(),
            None => None,
        }
    }

    /// The name in the header of the last transform segment.
    pub open spec fn last_transform_query_name(self) -> Option<Seq<char>> {
        if self.segments.len() == 0 {
            None
        } else {
            match self.segments.last() {
                QuerySegmentView::Transform(t) => match t.header {
                    Some(header) => Some(header.name),
                    None => None,
                },
                QuerySegmentView::Resource(_) => None,
            }
        }
    }

    /// The query without its last step, and that step. The last step is the
    /// last segment where that is a resource segment, else the last step of
    /// the last segment. An empty query has neither; a query that ends in an
    /// empty transform segment has no last step and loses that segment.
    pub open spec fn predecessor(self) -> (Option<QueryView>, Option<QuerySegmentView>) {
        if self.segments.len() == 0 {
            (None, None)
        } else {
            let before = self.segments.drop_last();
            match self.segments.last() {
                QuerySegmentView::Resource(r) => (
                    Some(QueryView { segments: before, absolute: self.absolute }),
                    Some(QuerySegmentView::Resource(r)),
                ),
                QuerySegmentView::Transform(t) => {
                    let (p, r) = t.predecessor();
                    let remainder = match r {
                        Some(r) => Some(QuerySegmentView::Transform(r)),
                        None => None,
                    };
                    if p is None || p->0.is_empty() {
                        (Some(QueryView { segments: before, absolute: self.absolute }), remainder)
                    } else {
                        (
                            Some(
                                QueryView {
                                    segments: before.push(QuerySegmentView::Transform(p->0)),
                                    absolute: self.absolute,
                                },
                            ),
                            remainder,
                        )
                    }
                },
            }
        }
    }

    pub open spec fn without_filename(self) -> QueryView {
        if self.filename() is None {
            self
        } else {
            self.predecessor().0->0
        }
    }

    /// Whether `step` continues the last segment of `self`: both are
    /// transform segments under the same header, and the last segment of
    /// `self` has actions and no filename.
    pub open spec fn continued_by(self, step: QuerySegmentView) -> bool {
        &&& self.segments.len() > 0
        &&& self.segments.last() is Transform
        &&& step is Transform
        &&& self.segments.last()->Transform_0.header == step->Transform_0.header
        &&& self.segments.last()->Transform_0.filename is None
        &&& self.segments.last()->Transform_0.query.len() > 0
    }

    /// `self` followed by `step`: `step` is added to the last segment where
    /// it continues it, else it becomes a segment of its own.
    pub open spec fn concat(self, step: QuerySegmentView) -> QueryView {
        if self.continued_by(step) {
            QueryView {
                segments: self.segments.drop_last().push(
                    QuerySegmentView::Transform(
                        self.segments.last()->Transform_0.add(step->Transform_0),
                    ),
                ),
                absolute: self.absolute,
            }
        } else {
            QueryView { segments: self.segments.push(step), absolute: self.absolute }
        }
    }
}

// ---------------------------------------------------------------------------
// Writing the text
// ---------------------------------------------------------------------------
fn write_parameter(p: &ActionParameter) -> (s: String)
    ensures
        s@ == encode_parameter(p@),
    decreases p,
{
    match p {
        ActionParameter::String(text, _) => encode_token(text.as_str()),
        ActionParameter::Link(q, _) => {
            let inner = write_query(q);
            let mut out = String::new();
            out.push('~');
            out.push('X');
            out.push('~');
            out.append(inner.as_str());
            out.push('~');
            out.push('E');
            assert(out@ =~= seq!['~', 'X', '~'] + inner@ + seq!['~', 'E']);
            out
        },
    }
}

fn write_parameters(ps: &Vec<ActionParameter>) -> (parts: Vec<String>)
    ensures
        texts(parts@) == encode_parameters(parameters_view(ps@)),
    decreases ps,
{
    let mut parts: Vec<String> = Vec::new();
    let mut i: usize = 0;
    while i < ps.len()
        invariant
            i <= ps.len(),
            parts.len() == i,
            forall|j: int| 0 <= j < i ==> parts@[j]@ == encode_parameter(ps@[j]@),
        decreases ps.len() - i,
    {
        parts.push(write_parameter(&ps[i]));
        i += 1;
    }
    assert(texts(parts@) =~= encode_parameters(parameters_view(ps@)));
    parts
}

fn write_action(a: &ActionRequest) -> (s: String)
    ensures
        s@ == encode_action(a@),
    decreases a,
{
    if a.parameters.len() == 0 {
        a.name.clone()
    } else {
        let parts = write_parameters(&a.parameters);
        proof {
            reveal_strlit("-");
            assert("-"@ =~= seq!['-']);
        }
        let joined = join_strings(&parts, "-");
        let mut out = a.name.clone();
        out.push('-');
        out.append(joined.as_str());
        assert(out@ =~= a.name@ + seq!['-'] + joined@);
        out
    }
}

fn write_actions(actions: &Vec<ActionRequest>) -> (parts: Vec<String>)
    ensures
        texts(parts@) == encode_actions(actions_view(actions@)),
    decreases actions,
{
    let mut parts: Vec<String> = Vec::new();
    let mut i: usize = 0;
    while i < actions.len()
        invariant
            i <= actions.len(),
            parts.len() == i,
            forall|j: int| 0 <= j < i ==> parts@[j]@ == encode_action(actions@[j]@),
        decreases actions.len() - i,
    {
        parts.push(write_action(&actions[i]));
        i += 1;
    }
    assert(texts(parts@) =~= encode_actions(actions_view(actions@)));
    parts
}

fn write_header(h: &SegmentHeader) -> (s: String)
    ensures
        s@ == encode_header(h@),
{
    let mut out = String::new();
    out.push('-');
    let mut i: usize = 0;
    while i < h.level
        invariant
            i <= h.level,
            out@ == hyphens((i + 1) as nat),
        decreases h.level - i,
    {
        out.push('-');
        i += 1;
        assert(out@ =~= hyphens((i + 1) as nat));
    }
    if h.resource {
        out.push('R');
    }
    out.append(h.name.as_str());
    let ghost head = out@;
    let mut k: usize = 0;
    while k < h.parameters.len()
        invariant
            k <= h.parameters.len(),
            out@ == head + encode_header_parameters(
                header_parameters_view(h.parameters@).take(k as int),
            ),
        decreases h.parameters.len() - k,
    {
        let ghost before = header_parameters_view(h.parameters@).take(k as int);
        out.push('-');
        out.append(h.parameters[k].value.as_str());
        k += 1;
        proof {
            let now = header_parameters_view(h.parameters@).take(k as int);
            assert(now.drop_last() =~= before);
            assert(now.last().value == h.parameters@[k - 1].value@);
            assert(out@ =~= head + encode_header_parameters(now));
        }
    }
    proof {
        let all = header_parameters_view(h.parameters@);
        assert(all.take(k as int) =~= all);
        assert(head =~= hyphens((h.level + 1) as nat) + (if h.resource {
            seq!['R']
        } else {
            Seq::empty()
        }) + h.name@);
    }
    out
}

fn write_key(names: &Vec<ResourceName>) -> (s: String)
    ensures
        s@ == encode_key(names_view(names@)),
{
    let mut parts: Vec<String> = Vec::new();
    let mut i: usize = 0;
    while i < names.len()
        invariant
            i <= names.len(),
            parts.len() == i,
            forall|j: int| 0 <= j < i ==> parts@[j]@ == names@[j].name@,
        decreases names.len() - i,
    {
        parts.push(names[i].name.clone());
        i += 1;
    }
    proof {
        reveal_strlit("/");
        assert("/"@ =~= seq!['/']);
        assert(texts(parts@) =~= name_texts(names_view(names@)));
    }
    join_strings(&parts, "/")
}

fn write_transform(t: &TransformQuerySegment) -> (s: String)
    ensures
        s@ == encode_transform(t@),
    decreases t,
{
    let parts = write_actions(&t.query);
    proof {
        reveal_strlit("/");
        assert("/"@ =~= seq!['/']);
    }
    let actions = join_strings(&parts, "/");
    let body = match &t.filename {
        Some(filename) => {
            if actions.as_str().is_empty() {
                filename.name.clone()
            } else {
                let mut out = actions;
                out.push('/');
                out.append(filename.name.as_str());
                out
            }
        },
        None => actions,
    };
    match &t.header {
        Some(header) => {
            let mut out = write_header(header);
            if !body.as_str().is_empty() {
                out.push('/');
                out.append(body.as_str());
            }
            out
        },
        None => body,
    }
}

fn write_resource(r: &ResourceQuerySegment) -> (s: String)
    ensures
        s@ == encode_resource(r@),
{
    let key = write_key(&r.key.0);
    match &r.header {
        Some(header) => {
            let mut out = write_header(header);
            out.push('/');
            out.append(key.as_str());
            out
        },
        None => key,
    }
}

fn write_segment(s: &QuerySegment) -> (text: String)
    ensures
        text@ == encode_segment(s@),
    decreases s,
{
    match s {
        QuerySegment::Resource(r) => write_resource(r),
        QuerySegment::Transform(t) => write_transform(t),
    }
}

fn write_segments(segments: &Vec<QuerySegment>) -> (parts: Vec<String>)
    ensures
        texts(parts@) == encode_segments(segments_view(segments@)),
    decreases segments,
{
    let mut parts: Vec<String> = Vec::new();
    let mut i: usize = 0;
    while i < segments.len()
        invariant
            i <= segments.len(),
            parts.len() == i,
            forall|j: int| 0 <= j < i ==> parts@[j]@ == encode_segment(segments@[j]@),
        decreases segments.len() - i,
    {
        parts.push(write_segment(&segments[i]));
        i += 1;
    }
    assert(texts(parts@) =~= encode_segments(segments_view(segments@)));
    parts
}

fn write_query(q: &Query) -> (s: String)
    ensures
        s@ == encode_query(q@),
    decreases q,
{
    let parts = write_segments(&q.segments);
    proof {
        reveal_strlit("/");
        assert("/"@ =~= seq!['/']);
    }
    let body = join_strings(&parts, "/");
    let body_chars = chars_of(body.as_str());
    let lone_resource = q.segments.len() == 1 && match &q.segments[0] {
        QuerySegment::Resource(_) => true,
        QuerySegment::Transform(_) => false,
    };
    let mut out = String::new();
    if q.absolute {
        out.push('/');
    }
    if lone_resource && !(body_chars.len() > 0 && body_chars[0] == '-') {
        out.push('-');
        out.push('R');
        out.push('/');
    }
    out.append(body.as_str());
    proof {
        let shown = if q@.is_resource_query() && !(body@.len() > 0 && body@[0] == '-') {
            seq!['-', 'R', '/'] + body@
        } else {
            body@
        };
        assert(out@ =~= if q.absolute {
            seq!['/'] + shown
        } else {
            shown
        });
    }
    out
}

// ---------------------------------------------------------------------------
// Parameters, names, actions, headers
// ---------------------------------------------------------------------------
pub open spec fn option_parameters_view(o: Option<Vec<ActionParameter>>) -> Option<
    Seq<ActionParameterView>,
> {
    match o {
        Some(v) => Some(parameters_view(v@)),
        None => None,
    }
}

pub open spec fn option_action_view(o: Option<ActionRequest>) -> Option<ActionRequestView> {
    match o {
        Some(a) => Some(a@),
        None => None,
    }
}

pub open spec fn option_transform_view(o: Option<TransformQuerySegment>) -> Option<
    TransformQuerySegmentView,
> {
    match o {
        Some(t) => Some(t@),
        None => None,
    }
}

pub open spec fn option_resource_view(o: Option<ResourceQuerySegment>) -> Option<
    ResourceQuerySegmentView,
> {
    match o {
        Some(r) => Some(r@),
        None => None,
    }
}

pub open spec fn option_segment_view(o: Option<QuerySegment>) -> Option<QuerySegmentView> {
    match o {
        Some(s) => Some(s@),
        None => None,
    }
}

pub open spec fn option_query_view(o: Option<Query>) -> Option<QueryView> {
    match o {
        Some(q) => Some(q@),
        None => None,
    }
}

pub open spec fn option_text(o: Option<String>) -> Option<Seq<char>> {
    match o {
        Some(s) => Some(s@),
        None => None,
    }
}

impl ActionParameter {
    pub fn new_string(parameter: String) -> (p: ActionParameter)
        ensures
            p@ == ActionParameterView::String(parameter@, Position::spec_unknown()),
    {
        ActionParameter::String(parameter, Position::unknown())
    }

    pub fn new_link(query: Query) -> (p: ActionParameter)
        ensures
            p@ == ActionParameterView::Link(query@, Position::spec_unknown()),
    {
        ActionParameter::Link(query, Position::unknown())
    }

    pub fn is_string(&self) -> (r: bool)
        ensures
            r == (self@ is String),
    {
        match self {
            ActionParameter::String(_, _) => true,
            ActionParameter::Link(_, _) => false,
        }
    }

    pub fn with_position(self, position: Position) -> (p: ActionParameter)
        ensures
            p@ == match self@ {
                ActionParameterView::String(s, _) => ActionParameterView::String(s, position),
                ActionParameterView::Link(q, _) => ActionParameterView::Link(q, position),
            },
    {
        match self {
            ActionParameter::String(s, _) => ActionParameter::String(s, position),
            ActionParameter::Link(query, _) => ActionParameter::Link(query, position),
        }
    }

    pub fn position(&self) -> (p: Position)
        ensures
            p == self@.position(),
    {
        match self {
            ActionParameter::String(_, p) => *p,
            ActionParameter::Link(_, p) => *p,
        }
    }

    /// The text of the parameter in a query: the escaped string, or the
    /// linked query between `~X~` and `~E`.
    pub fn encode(&self) -> (s: String)
        ensures
            s@ == encode_parameter(self@),
    {
        write_parameter(self)
    }
}

impl ResourceName {
    /// A resource name without a position.
    pub fn new(name: String) -> (r: ResourceName)
        ensures
            r@ == (ResourceNameView { name: name@, position: Position::spec_unknown() }),
    {
        ResourceName { name, position: Position::unknown() }
    }

    pub fn with_position(self, position: Position) -> (r: ResourceName)
        ensures
            r@ == (ResourceNameView { name: self@.name, position }),
    {
        ResourceName { name: self.name, position }
    }

    pub fn encode(&self) -> (s: &str)
        ensures
            s@ == self@.name,
    {
        self.name.as_str()
    }

    /// What follows the last `.` of the name, if the name has a `.`.
    pub fn extension(self) -> (ext: Option<String>)
        ensures
            option_text(ext) == extension_of(self@.name),
    {
        file_extension(self.name.as_str())
    }
}

/// What follows the last `.` of `name`, if `name` has a `.`.
pub fn file_extension(name: &str) -> (ext: Option<String>)
    ensures
        option_text(ext) == extension_of(name@),
{
    let chars = chars_of(name);
    let mut i: usize = chars.len();
    assert(chars@.take(i as int) =~= chars@);
    while i > 0
        invariant
            i <= chars.len(),
            chars@ == name@,
            last_index_of(chars@, '.') == last_index_of(chars@.take(i as int), '.'),
        decreases i,
    {
        if chars[i - 1] == '.' {
            assert(chars@.take(i as int).last() == '.');
            assert(last_index_of(chars@, '.') == Some(i - 1));
            return Some(string_of(&chars, i, chars.len()));
        }
        assert(chars@.take(i as int).drop_last() =~= chars@.take(i - 1));
        i -= 1;
    }
    assert(chars@.take(0).len() == 0);
    None
}

impl ActionRequest {
    /// An action without parameters or position.
    pub fn new(name: String) -> (a: ActionRequest)
        ensures
            a@ == (ActionRequestView {
                name: name@,
                parameters: Seq::empty(),
                position: Position::spec_unknown(),
            }),
    {
        let a = ActionRequest { name, parameters: Vec::new(), position: Position::unknown() };
        assert(a@.parameters =~= Seq::empty());
        a
    }

    pub fn with_position(self, position: Position) -> (a: ActionRequest)
        ensures
            a@ == (ActionRequestView { position, ..self@ }),
    {
        ActionRequest { name: self.name, parameters: self.parameters, position }
    }

    pub fn with_parameters(self, parameters: Vec<ActionParameter>) -> (a: ActionRequest)
        ensures
            a@ == (ActionRequestView { parameters: parameters_view(parameters@), ..self@ }),
    {
        ActionRequest { name: self.name, parameters, position: self.position }
    }

    /// Whether this is a namespace directive.
    pub fn is_ns(&self) -> (r: bool)
        ensures
            r == self@.is_ns(),
    {
        proof {
            reveal_strlit("ns");
            assert("ns"@ =~= ns_name());
        }
        same_text(self.name.as_str(), "ns")
    }

    /// The parameters of a namespace directive.
    pub fn ns(&self) -> (r: Option<Vec<ActionParameter>>)
        ensures
            option_parameters_view(r) == self@.ns(),
    {
        if self.is_ns() {
            Some(clone_parameters(&self.parameters))
        } else {
            None
        }
    }

    /// The name, then each parameter after a hyphen.
    pub fn encode(&self) -> (s: String)
        ensures
            s@ == encode_action(self@),
    {
        write_action(self)
    }
}

impl Default for ActionRequest {
    fn default() -> (a: ActionRequest)
        ensures
            a@ == (ActionRequestView {
                name: Seq::empty(),
                parameters: Seq::empty(),
                position: Position::spec_unknown(),
            }),
    {
        ActionRequest::new(String::new())
    }
}

impl HeaderParameter {
    pub fn new(value: String) -> (h: HeaderParameter)
        ensures
            h@ == (HeaderParameterView { value: value@, position: Position::spec_unknown() }),
    {
        HeaderParameter { value, position: Position::unknown() }
    }

    pub fn with_position(self, position: Position) -> (h: HeaderParameter)
        ensures
            h@ == (HeaderParameterView { value: self@.value, position }),
    {
        HeaderParameter { value: self.value, position }
    }

    pub fn encode(&self) -> (s: &str)
        ensures
            s@ == self@.value,
    {
        self.value.as_str()
    }
}

impl Default for HeaderParameter {
    fn default() -> (h: HeaderParameter)
        ensures
            h@ == (HeaderParameterView {
                value: Seq::empty(),
                position: Position::spec_unknown(),
            }),
    {
        HeaderParameter::new(String::new())
    }
}

impl SegmentHeader {
    /// Whether the header says nothing: no name, level zero, no parameters.
    /// The `resource` flag does not count.
    pub fn is_trivial(&self) -> (r: bool)
        ensures
            r == self@.is_trivial(),
    {
        self.name.as_str().is_empty() && self.level == 0 && self.parameters.len() == 0
    }

    /// The trivial header of a transform segment.
    pub fn new() -> (h: SegmentHeader)
        ensures
            h@ == (SegmentHeaderView {
                name: Seq::empty(),
                level: 0,
                parameters: Seq::empty(),
                resource: false,
                position: Position::spec_unknown(),
            }),
    {
        let h = SegmentHeader {
            name: String::new(),
            level: 0,
            parameters: Vec::new(),
            resource: false,
            position: Position::unknown(),
        };
        assert(h@.parameters =~= Seq::empty());
        h
    }

    pub fn with_position(self, position: Position) -> (h: SegmentHeader)
        ensures
            h@ == (SegmentHeaderView { position, ..self@ }),
    {
        SegmentHeader {
            name: self.name,
            level: self.level,
            parameters: self.parameters,
            resource: self.resource,
            position,
        }
    }

    /// `level + 1` hyphens, `R` for a resource header, the name, then each
    /// parameter after a hyphen.
    pub fn encode(&self) -> (s: String)
        ensures
            s@ == encode_header(self@),
    {
        write_header(self)
    }
}

impl Default for SegmentHeader {
    fn default() -> (h: SegmentHeader)
        ensures
            h@ == (SegmentHeaderView {
                name: Seq::empty(),
                level: 0,
                parameters: Seq::empty(),
                resource: false,
                position: Position::spec_unknown(),
            }),
    {
        SegmentHeader::new()
    }
}

// ---------------------------------------------------------------------------
// Segments
// ---------------------------------------------------------------------------
fn clone_actions_range(actions: &Vec<ActionRequest>, from: usize, to: usize) -> (r: Vec<
    ActionRequest,
>)
    requires
        from <= to <= actions.len(),
    ensures
        actions_view(r@) == actions_view(actions@).subrange(from as int, to as int),
{
    let mut out: Vec<ActionRequest> = Vec::new();
    let mut i: usize = from;
    while i < to
        invariant
            from <= i <= to <= actions.len(),
            out.len() == i - from,
            forall|j: int| 0 <= j < i - from ==> out@[j]@ == actions@[from + j]@,
        decreases to - i,
    {
        out.push(actions[i].clone());
        i += 1;
    }
    assert(actions_view(out@) =~= actions_view(actions@).subrange(from as int, to as int));
    out
}

fn clone_segments_range(segments: &Vec<QuerySegment>, from: usize, to: usize) -> (r: Vec<
    QuerySegment,
>)
    requires
        from <= to <= segments.len(),
    ensures
        segments_view(r@) == segments_view(segments@).subrange(from as int, to as int),
{
    let mut out: Vec<QuerySegment> = Vec::new();
    let mut i: usize = from;
    while i < to
        invariant
            from <= i <= to <= segments.len(),
            out.len() == i - from,
            forall|j: int| 0 <= j < i - from ==> out@[j]@ == segments@[from + j]@,
        decreases to - i,
    {
        out.push(segments[i].clone());
        i += 1;
    }
    assert(segments_view(out@) =~= segments_view(segments@).subrange(from as int, to as int));
    out
}

impl TransformQuerySegment {
    /// The segment without its last step, and that last step as a segment of
    /// its own.
    pub fn predecessor(&self) -> (r: (Option<TransformQuerySegment>, Option<TransformQuerySegment>))
        ensures
            option_transform_view(r.0) == self@.predecessor().0,
            option_transform_view(r.1) == self@.predecessor().1,
    {
        match &self.filename {
            Some(filename) => {
                let before = TransformQuerySegment {
                    header: clone_option_header(&self.header),
                    query: clone_actions(&self.query),
                    filename: None,
                };
                let last = TransformQuerySegment {
                    header: clone_option_header(&self.header),
                    query: Vec::new(),
                    filename: Some(filename.clone()),
                };
                assert(last@.query =~= Seq::empty());
                (Some(before), Some(last))
            },
            None => {
                if self.query.len() == 0 {
                    (None, None)
                } else {
                    let n = self.query.len();
                    let before = TransformQuerySegment {
                        header: clone_option_header(&self.header),
                        query: clone_actions_range(&self.query, 0, n - 1),
                        filename: None,
                    };
                    let mut single: Vec<ActionRequest> = Vec::new();
                    single.push(self.query[n - 1].clone());
                    let last = TransformQuerySegment {
                        header: clone_option_header(&self.header),
                        query: single,
                        filename: None,
                    };
                    assert(before@.query =~= self@.query.drop_last());
                    assert(last@.query =~= seq![self@.query.last()]);
                    (Some(before), Some(last))
                }
            },
        }
    }

    pub fn is_empty(&self) -> (r: bool)
        ensures
            r == self@.is_empty(),
    {
        self.query.len() == 0 && self.filename.is_none()
    }

    pub fn is_filename(&self) -> (r: bool)
        ensures
            r == self@.is_filename(),
    {
        self.query.len() == 0 && self.filename.is_some()
    }

    pub fn is_action_request(&self) -> (r: bool)
        ensures
            r == self@.is_action_request(),
    {
        self.query.len() == 1 && self.filename.is_none()
    }

    /// The action of a segment that is one action and nothing else.
    pub fn action(&self) -> (r: Option<ActionRequest>)
        ensures
            option_action_view(r) == self@.action(),
    {
        if self.is_action_request() {
            Some(self.query[0].clone())
        } else {
            None
        }
    }

    pub fn is_ns(&self) -> (r: bool)
        ensures
            r == self@.is_ns(),
    {
        self.is_action_request() && self.query[0].is_ns()
    }

    pub fn ns(&self) -> (r: Option<Vec<ActionParameter>>)
        ensures
            option_parameters_view(r) == self@.ns(),
    {
        if self.is_action_request() {
            self.query[0].ns()
        } else {
            None
        }
    }

    /// The parameters of the last namespace directive of the segment.
    pub fn last_ns(&self) -> (r: Option<Vec<ActionParameter>>)
        ensures
            option_parameters_view(r) == self@.last_ns(),
    {
        let mut i: usize = self.query.len();
        assert(self@.query.take(i as int) =~= self@.query);
        while i > 0
            invariant
                i <= self.query.len(),
                last_ns_of(self@.query) == last_ns_of(self@.query.take(i as int)),
            decreases i,
        {
            if self.query[i - 1].is_ns() {
                assert(self@.query.take(i as int).last() == self.query@[i - 1]@);
                return self.query[i - 1].ns();
            }
            assert(self@.query.take(i as int).last() == self.query@[i - 1]@);
            assert(self@.query.take(i as int).drop_last() =~= self@.query.take(i - 1));
            i -= 1;
        }
        assert(self@.query.take(0).len() == 0);
        None
    }

    pub fn encode(&self) -> (s: String)
        ensures
            s@ == encode_transform(self@),
    {
        write_transform(self)
    }

    /// The number of actions.
    pub fn len(&self) -> (n: usize)
        ensures
            n == self@.query.len(),
    {
        self.query.len()
    }

    /// The segment that does all of `self` and then all of `rhs`.
    pub fn add(self, rhs: TransformQuerySegment) -> (sum: TransformQuerySegment)
        ensures
            sum@ == self@.add(rhs@),
    {
        let ghost left = self@;
        let mut query = self.query;
        let mut i: usize = 0;
        while i < rhs.query.len()
            invariant
                i <= rhs.query.len(),
                actions_view(query@) == left.query + rhs@.query.take(i as int),
            decreases rhs.query.len() - i,
        {
            let ghost before = actions_view(query@);
            query.push(rhs.query[i].clone());
            i += 1;
            assert(actions_view(query@) =~= before.push(rhs.query@[i - 1]@));
            assert(actions_view(query@) =~= left.query + rhs@.query.take(i as int));
        }
        assert(rhs@.query.take(i as int) =~= rhs@.query);
        TransformQuerySegment { header: self.header, query, filename: rhs.filename }
    }

    /// `self` where `rhs` is nothing, else `self.add(rhs)`.
    pub fn add_option(self, rhs: Option<TransformQuerySegment>) -> (sum: TransformQuerySegment)
        ensures
            sum@ == match rhs {
                Some(rhs) => self@.add(rhs@),
                None => self@,
            },
    {
        match rhs {
            Some(x) => self.add(x),
            None => self,
        }
    }
}

impl Default for TransformQuerySegment {
    fn default() -> (t: TransformQuerySegment)
        ensures
            t@ == (TransformQuerySegmentView {
                header: None,
                query: Seq::empty(),
                filename: None,
            }),
    {
        let t = TransformQuerySegment { header: None, query: Vec::new(), filename: None };
        assert(t@.query =~= Seq::empty());
        t
    }
}

/// The name that stands for the directory itself.
pub open spec fn dot() -> Seq<char> {
    seq!['.']
}

/// The name that stands for the directory above.
pub open spec fn dot_dot() -> Seq<char> {
    seq!['.', '.']
}

/// `names` without the last name; the empty path stays empty.
pub open spec fn parent_of(names: Seq<ResourceNameView>) -> Seq<ResourceNameView> {
    if names.len() == 0 {
        names
    } else {
        names.drop_last()
    }
}

/// The path that the first `n` names of `key` lead to from `cwd`. A first
/// name `.` stands for `cwd` and a first name `..` for its parent; later,
/// `.` changes nothing and `..` drops the last name; any other name is
/// appended. A key whose first name is neither starts from the empty path.
pub open spec fn resolve(key: Seq<ResourceNameView>, cwd: Seq<ResourceNameView>, n: int) -> Seq<
    ResourceNameView,
>
    decreases n,
{
    if n <= 0 {
        Seq::empty()
    } else {
        let before = resolve(key, cwd, n - 1);
        let name = key[n - 1];
        if name.name == dot() {
            if n == 1 {
                cwd
            } else {
                before
            }
        } else if name.name == dot_dot() {
            if n == 1 {
                parent_of(cwd)
            } else {
                parent_of(before)
            }
        } else {
            before.push(name)
        }
    }
}

impl Key {
    /// The empty key.
    pub fn new() -> (k: Key)
        ensures
            k@ == Seq::<ResourceNameView>::empty(),
    {
        let k = Key(Vec::new());
        assert(k@ =~= Seq::<ResourceNameView>::empty());
        k
    }

    pub fn is_empty(&self) -> (r: bool)
        ensures
            r == (self@.len() == 0),
    {
        self.0.len() == 0
    }

    /// The last name of the key, which a store reads as a filename.
    pub fn filename(&self) -> (r: Option<&ResourceName>)
        ensures
            match r {
                Some(name) => self@.len() > 0 && name@ == self@.last(),
                None => self@.len() == 0,
            },
    {
        if self.0.len() == 0 {
            None
        } else {
            Some(&self.0[self.0.len() - 1])
        }
    }

    /// The number of names.
    pub fn len(&self) -> (n: usize)
        ensures
            n == self@.len(),
    {
        self.0.len()
    }

    /// The name at `index`.
    pub fn get(&self, index: usize) -> (r: Option<&ResourceName>)
        ensures
            match r {
                Some(name) => index < self@.len() && name@ == self@[index as int],
                None => index >= self@.len(),
            },
    {
        if index < self.0.len() {
            Some(&self.0[index])
        } else {
            None
        }
    }

    /// The names joined by `/`.
    pub fn encode(&self) -> (s: String)
        ensures
            s@ == encode_key(self@),
    {
        write_key(&self.0)
    }

    /// Whether the encoded key begins with `prefix`.
    pub fn has_prefix(&self, prefix: &str) -> (r: bool)
        ensures
            r == prefix@.is_prefix_of(encode_key(self@)),
    {
        let text = chars_of(self.encode().as_str());
        let wanted = chars_of(prefix);
        begins_with(&text, &wanted)
    }

    /// The key with `name` appended.
    pub fn join(&self, name: &str) -> (k: Key)
        ensures
            k@ == self@.push(
                ResourceNameView { name: name@, position: Position::spec_unknown() },
            ),
    {
        let mut names = clone_names(&self.0);
        let ghost before = names_view(names@);
        names.push(ResourceName::new(name.to_owned()));
        let k = Key(names);
        assert(k@ =~= before.push(
            ResourceNameView { name: name@, position: Position::spec_unknown() },
        ));
        k
    }

    /// The key without its last name; the empty key is its own parent.
    pub fn parent(&self) -> (k: Key)
        ensures
            k@ == parent_of(self@),
    {
        let mut names = clone_names(&self.0);
        let ghost before = names_view(names@);
        if names.len() > 0 {
            names.pop();
            assert(names_view(names@) =~= before.drop_last());
        }
        Key(names)
    }

    /// Resolves a relative key against the current working key `cwd`.
    pub fn to_absolute(&self, cwd: &Key) -> (k: Key)
        ensures
            k@ == resolve(self@, cwd@, self@.len() as int),
    {
        proof {
            reveal_strlit(".");
            reveal_strlit("..");
            assert("."@ =~= dot());
            assert(".."@ =~= dot_dot());
        }
        let mut result: Vec<ResourceName> = Vec::new();
        let mut i: usize = 0;
        assert(names_view(result@) =~= Seq::empty());
        while i < self.0.len()
            invariant
                i <= self.0.len(),
                "."@ == dot(),
                ".."@ == dot_dot(),
                names_view(result@) == resolve(self@, cwd@, i as int),
            decreases self.0.len() - i,
        {
            let name = &self.0[i];
            let is_dot = same_text(name.name.as_str(), ".");
            let is_dot_dot = same_text(name.name.as_str(), "..");
            let ghost before = names_view(result@);
            if is_dot {
                if i == 0 {
                    result = clone_names(&cwd.0);
                }
            } else if is_dot_dot {
                if i == 0 {
                    result = clone_names(&cwd.0);
                }
                let ghost base = names_view(result@);
                if result.len() > 0 {
                    result.pop();
                    assert(names_view(result@) =~= base.drop_last());
                }
            } else {
                result.push(name.clone());
                assert(names_view(result@) =~= before.push(name@));
            }
            i += 1;
        }
        Key(result)
    }
}

impl Default for Key {
    fn default() -> (k: Key)
        ensures
            k@ == Seq::<ResourceNameView>::empty(),
    {
        Key::new()
    }
}

impl ResourceQuerySegment {
    /// Where the segment begins: at its header, else at its first name.
    pub fn position(&self) -> (p: Position)
        ensures
            p == self@.position(),
    {
        match &self.header {
            Some(header) => header.position,
            None => {
                if self.key.is_empty() {
                    Position::unknown()
                } else {
                    self.key.0[0].position
                }
            },
        }
    }

    /// The names of the key joined by `/`.
    pub fn path(&self) -> (s: String)
        ensures
            s@ == encode_key(self@.key),
    {
        self.key.encode()
    }

    /// The header, where there is one, then `/`, then the path.
    pub fn encode(&self) -> (s: String)
        ensures
            s@ == encode_resource(self@),
    {
        write_resource(self)
    }

    pub fn filename(&self) -> (r: Option<ResourceName>)
        ensures
            option_name_view(r) == self@.filename(),
    {
        match self.key.filename() {
            Some(name) => Some(name.clone()),
            None => None,
        }
    }

    /// The number of names of the key.
    pub fn len(&self) -> (n: usize)
        ensures
            n == self@.key.len(),
    {
        self.key.len()
    }
}

impl Default for ResourceQuerySegment {
    fn default() -> (r: ResourceQuerySegment)
        ensures
            r@ == (ResourceQuerySegmentView { header: None, key: Seq::empty() }),
    {
        ResourceQuerySegment { header: None, key: Key::new() }
    }
}

impl QuerySegment {
    pub fn encode(&self) -> (s: String)
        ensures
            s@ == encode_segment(self@),
    {
        write_segment(self)
    }

    pub fn len(&self) -> (n: usize)
        ensures
            n == self@.len(),
    {
        match self {
            QuerySegment::Resource(rqs) => rqs.len(),
            QuerySegment::Transform(tqs) => tqs.len(),
        }
    }

    pub fn is_ns(&self) -> (r: bool)
        ensures
            r == self@.is_ns(),
    {
        match self {
            QuerySegment::Resource(_) => false,
            QuerySegment::Transform(tqs) => tqs.is_ns(),
        }
    }

    pub fn ns(&self) -> (r: Option<Vec<ActionParameter>>)
        ensures
            option_parameters_view(r) == self@.ns(),
    {
        match self {
            QuerySegment::Resource(_) => None,
            QuerySegment::Transform(tqs) => tqs.ns(),
        }
    }

    pub fn last_ns(&self) -> (r: Option<Vec<ActionParameter>>)
        ensures
            option_parameters_view(r) == self@.last_ns(),
    {
        match self {
            QuerySegment::Resource(_) => None,
            QuerySegment::Transform(tqs) => tqs.last_ns(),
        }
    }
}

// ---------------------------------------------------------------------------
// Queries
// ---------------------------------------------------------------------------
/// `text` where it has at most `n` characters, else `...` and its last `n`
/// characters.
pub open spec fn shortened(text: Seq<char>, n: nat) -> Seq<char> {
    if text.len() > n {
        seq!['.', '.', '.'] + text.subrange(text.len() - n, text.len() as int)
    } else {
        text
    }
}

impl Query {
    /// The empty, relative query.
    pub fn new() -> (q: Query)
        ensures
            q@ == (QueryView { segments: Seq::empty(), absolute: false }),
    {
        let q = Query { segments: Vec::new(), absolute: false };
        assert(q@.segments =~= Seq::empty());
        q
    }

    /// The filename of the last segment.
    pub fn filename(&self) -> (r: Option<ResourceName>)
        ensures
            option_name_view(r) == self@.filename(),
    {
        if self.segments.len() == 0 {
            None
        } else {
            match &self.segments[self.segments.len() - 1] {
                QuerySegment::Transform(tqs) => clone_option_name(&tqs.filename),
                QuerySegment::Resource(rqs) => rqs.filename(),
            }
        }
    }

    /// The extension of the filename.
    pub fn extension(&self) -> (r: Option<String>)
        ensures
            option_text(r) == self@.extension(),
    {
        match self.filename() {
            Some(name) => name.extension(),
            None => None,
        }
    }

    /// Whether the query has no segments.
    pub fn is_empty(&self) -> (r: bool)
        ensures
            r == self@.is_empty(),
    {
        self.segments.len() == 0
    }

    pub fn is_ns(&self) -> (r: bool)
        ensures
            r == self@.is_ns(),
    {
        if self.segments.len() == 1 {
            self.segments[0].is_ns()
        } else {
            false
        }
    }

    pub fn ns(&self) -> (r: Option<Vec<ActionParameter>>)
        ensures
            option_parameters_view(r) == self@.ns(),
    {
        if self.segments.len() == 1 {
            self.segments[0].ns()
        } else {
            None
        }
    }

    pub fn last_ns(&self) -> (r: Option<Vec<ActionParameter>>)
        ensures
            option_parameters_view(r) == self@.last_ns(),
    {
        if self.segments.len() == 1 {
            self.segments[0].last_ns()
        } else {
            None
        }
    }

    /// Whether the query is one transform segment.
    pub fn is_transform_query(&self) -> (r: bool)
        ensures
            r == self@.is_transform_query(),
    {
        self.segments.len() == 1 && match &self.segments[0] {
            QuerySegment::Transform(_) => true,
            _ => false,
        }
    }

    /// The segment of a query that is one transform segment.
    pub fn transform_query(&self) -> (r: Option<TransformQuerySegment>)
        ensures
            option_transform_view(r) == self@.transform_query(),
    {
        if self.segments.len() == 1 {
            match &self.segments[0] {
                QuerySegment::Transform(tqs) => Some(tqs.clone()),
                _ => None,
            }
        } else {
            None
        }
    }

    /// Whether the query is one resource segment.
    pub fn is_resource_query(&self) -> (r: bool)
        ensures
            r == self@.is_resource_query(),
    {
        self.segments.len() == 1 && match &self.segments[0] {
            QuerySegment::Resource(_) => true,
            _ => false,
        }
    }

    /// The segment of a query that is one resource segment.
    pub fn resource_query(&self) -> (r: Option<ResourceQuerySegment>)
        ensures
            option_resource_view(r) == self@.resource_query(),
    {
        if self.segments.len() == 1 {
            match &self.segments[0] {
                QuerySegment::Resource(rqs) => Some(rqs.clone()),
                _ => None,
            }
        } else {
            None
        }
    }

    /// Whether the query is a single action.
    pub fn is_action_request(&self) -> (r: bool)
        ensures
            r == self@.is_action_request(),
    {
        if self.segments.len() == 1 {
            match &self.segments[0] {
                QuerySegment::Transform(tqs) => tqs.is_action_request(),
                _ => false,
            }
        } else {
            false
        }
    }

    /// The action of a query that is a single action.
    pub fn action(&self) -> (r: Option<ActionRequest>)
        ensures
            option_action_view(r) == self@.action(),
    {
        if self.segments.len() == 1 {
            match &self.segments[0] {
                QuerySegment::Transform(tqs) => tqs.action(),
                _ => None,
            }
        } else {
            None
        }
    }

    /// The name in the header of the last segment, where that is a transform
    /// segment with a header.
    pub fn last_transform_query_name(&self) -> (r: Option<String>)
        ensures
            option_text(r) == self@.last_transform_query_name(),
    {
        if self.segments.len() == 0 {
            None
        } else {
            match &self.segments[self.segments.len() - 1] {
                QuerySegment::Transform(tqs) => match &tqs.header {
                    Some(header) => Some(header.name.clone()),
                    None => None,
                },
                QuerySegment::Resource(_) => None,
            }
        }
    }

    /// The query without its last step, and that step.
    pub fn predecessor(&self) -> (r: (Option<Query>, Option<QuerySegment>))
        ensures
            option_query_view(r.0) == self@.predecessor().0,
            option_segment_view(r.1) == self@.predecessor().1,
    {
        let n = self.segments.len();
        if n == 0 {
            return (None, None);
        }
        let mut before = clone_segments_range(&self.segments, 0, n - 1);
        assert(segments_view(before@) =~= self@.segments.drop_last());
        assert(self@.segments.last() == self.segments@[n - 1]@);
        match &self.segments[n - 1] {
            QuerySegment::Resource(rqs) => (
                Some(Query { segments: before, absolute: self.absolute }),
                Some(QuerySegment::Resource(rqs.clone())),
            ),
            QuerySegment::Transform(tqs) => {
                let (p, r) = tqs.predecessor();
                let remainder = match r {
                    Some(x) => Some(QuerySegment::Transform(x)),
                    None => None,
                };
                match p {
                    Some(p) => {
                        if !p.is_empty() {
                            let ghost shorter = segments_view(before@);
                            before.push(QuerySegment::Transform(p));
                            assert(segments_view(before@) =~= shorter.push(
                                QuerySegmentView::Transform(p@),
                            ));
                        }
                        (Some(Query { segments: before, absolute: self.absolute }), remainder)
                    },
                    None => (
                        Some(Query { segments: before, absolute: self.absolute }),
                        remainder,
                    ),
                }
            },
        }
    }

    /// The query without the filename.
    pub fn without_filename(self) -> (q: Query)
        ensures
            q@ == self@.without_filename(),
    {
        if self.filename().is_none() {
            self
        } else {
            match self.predecessor().0 {
                Some(p) => p,
                None => Query { segments: Vec::new(), absolute: self.absolute },
            }
        }
    }

    /// A short form of the query for messages: the text of its last step
    /// or, where it has none, of the whole query cut to its last `n`
    /// characters.
    pub fn short(self, n: usize) -> (s: String)
        ensures
            s@ == match self@.predecessor().1 {
                Some(step) => encode_segment(step),
                None => shortened(encode_query(self@), n as nat),
            },
    {
        match self.predecessor().1 {
            Some(r) => r.encode(),
            None => {
                let q = self.encode();
                let chars = chars_of(q.as_str());
                if chars.len() > n {
                    let tail = string_of(&chars, chars.len() - n, chars.len());
                    let mut out = String::new();
                    out.push('.');
                    out.push('.');
                    out.push('.');
                    out.append(tail.as_str());
                    assert(out@ =~= seq!['.', '.', '.'] + tail@);
                    out
                } else {
                    q
                }
            },
        }
    }

    /// The canonical text of the query.
    pub fn encode(&self) -> (s: String)
        ensures
            s@ == encode_query(self@),
    {
        write_query(self)
    }

    /// The number of segments.
    pub fn len(&self) -> (n: usize)
        ensures
            n == self@.segments.len(),
    {
        self.segments.len()
    }
}

impl Default for Query {
    fn default() -> (q: Query)
        ensures
            q@ == (QueryView { segments: Seq::empty(), absolute: false }),
    {
        Query::new()
    }
}

// ---------------------------------------------------------------------------
// Laws of the split
// ---------------------------------------------------------------------------
impl QueryView {
    /// Whether the last segment is a single step under the header that the
    /// segment before it closes with: both are transform segments with the
    /// same header, the first has actions and no filename, and the last is
    /// one action or one filename.
    pub open spec fn ends_in_repeated_header(self) -> bool {
        let n = self.segments.len();
        &&& n >= 2
        &&& self.segments[n - 2] is Transform
        &&& self.segments[n - 1] is Transform
        &&& self.segments[n - 2]->Transform_0.header == self.segments[n - 1]->Transform_0.header
        &&& self.segments[n - 2]->Transform_0.filename is None
        &&& self.segments[n - 2]->Transform_0.query.len() > 0
        &&& (self.segments[n - 1]->Transform_0.is_action_request()
            || self.segments[n - 1]->Transform_0.is_filename())
    }
}

/// Splitting a query into predecessor and last step loses nothing: the
/// predecessor followed by the step is the query again, and so has the
/// query's text. This holds of every query with a last step, unless the
/// query repeats a header as `ends_in_repeated_header` describes: there the
/// step alone does not show that it was a segment of its own.
pub proof fn lemma_predecessor_concat(q: QueryView)
    requires
        q.predecessor().1 is Some,
        !q.ends_in_repeated_header(),
    ensures
        q.predecessor().0 is Some,
        q.predecessor().0->0.concat(q.predecessor().1->0) == q,
        encode_query(q.predecessor().0->0.concat(q.predecessor().1->0)) == encode_query(q),
{
    let n = q.segments.len() as int;
    let before = q.segments.drop_last();
    let p = q.predecessor().0->0;
    let step = q.predecessor().1->0;
    match q.segments.last() {
        QuerySegmentView::Resource(r) => {
            assert(!p.continued_by(step));
            assert(before.push(step) =~= q.segments);
        },
        QuerySegmentView::Transform(t) => {
            let (tp, tr) = t.predecessor();
            if tp is None || tp->0.is_empty() {
                assert(tr->0 == t) by {
                    if t.filename is Some {
                        assert(t.query =~= Seq::empty());
                    } else {
                        assert(seq![t.query.last()] =~= t.query);
                    }
                }
                assert(!p.continued_by(step));
                assert(before.push(step) =~= q.segments);
            } else {
                assert(p.segments.last() == QuerySegmentView::Transform(tp->0));
                assert(p.continued_by(step));
                assert(tp->0.add(tr->0) == t) by {
                    if t.filename is Some {
                        assert(t.query + Seq::<ActionRequestView>::empty() =~= t.query);
                    } else {
                        assert(t.query.drop_last() + seq![t.query.last()] =~= t.query);
                    }
                }
                assert(p.segments.drop_last() =~= before);
                assert(before.push(q.segments.last()) =~= q.segments);
            }
        },
    }
}

impl QueryView {
    /// Whether the last step of the query, once split off, no longer shows
    /// that it was a segment of its own, so that putting it back changes
    /// the text. The query then repeats a header as
    /// `ends_in_repeated_header` describes, and either the header is there
    /// and is written twice in the text of the query, or there is none and
    /// the last segment is a filename after actions whose text is empty.
    pub open spec fn split_is_hidden(self) -> bool {
        let n = self.segments.len();
        self.ends_in_repeated_header() && (self.segments[n - 1]->Transform_0.header is Some || (
        self.segments[n - 1]->Transform_0.is_filename() && join(
            encode_actions(self.segments[n - 2]->Transform_0.query),
            seq!['/'],
        ).len() == 0))
    }
}

/// The text of a query whose last two segments are `a` and `b` is the text
/// of the query with the two in one segment whose text is `a`, `/` and
/// `b`.
proof fn lemma_join_last_two(parts: Seq<Seq<char>>, a: Seq<char>, b: Seq<char>)
    ensures
        join(parts.push(a).push(b), seq!['/']) == join(parts.push(a + seq!['/'] + b), seq!['/']),
{
    lemma_join_push(parts.push(a), b, seq!['/']);
    lemma_join_push(parts, a, seq!['/']);
    lemma_join_push(parts, a + seq!['/'] + b, seq!['/']);
    if parts.len() == 0 {
    } else {
        assert(join(parts, seq!['/']) + seq!['/'] + a + seq!['/'] + b =~= join(parts, seq!['/'])
            + seq!['/'] + (a + seq!['/'] + b));
    }
}

/// Splitting a query into predecessor and last step and putting the step
/// back gives a query of the same text. This holds of every query with a
/// last step but those whose split is hidden.
pub proof fn lemma_predecessor_text(q: QueryView)
    requires
        q.predecessor().1 is Some,
        !q.split_is_hidden(),
    ensures
        q.predecessor().0 is Some,
        encode_query(q.predecessor().0->0.concat(q.predecessor().1->0)) == encode_query(q),
{
    if !q.ends_in_repeated_header() {
        lemma_predecessor_concat(q);
    } else {
        let n = q.segments.len() as int;
        let u = q.segments[n - 2]->Transform_0;
        let t = q.segments[n - 1]->Transform_0;
        let pre = q.segments.subrange(0, n - 2);
        let p = q.predecessor().0->0;
        let step = q.predecessor().1->0;
        // the last segment is one step, so the split takes it whole
        assert(t.predecessor().1->0 == t) by {
            if t.filename is Some {
                assert(t.query =~= Seq::empty());
            } else {
                assert(seq![t.query.last()] =~= t.query);
            }
        }
        assert(step == QuerySegmentView::Transform(t));
        assert(p.segments =~= q.segments.drop_last());
        assert(p.segments.last() == q.segments[n - 2]);
        assert(p.continued_by(step));
        let m = u.add(t);
        let joined = p.concat(step);
        assert(joined.segments =~= pre.push(QuerySegmentView::Transform(m)));
        assert(q.segments =~= pre.push(q.segments[n - 2]).push(q.segments[n - 1]));
        // the texts of the segments
        let a = join(encode_actions(u.query), seq!['/']);
        let b = encode_transform(t);
        assert(encode_transform(u) == a);
        assert(encode_actions(m.query) =~= if t.query.len() == 1 {
            encode_actions(u.query).push(encode_action(t.query[0]))
        } else {
            encode_actions(u.query)
        }) by {
            if t.query.len() == 1 {
                assert(m.query =~= u.query.push(t.query[0]));
            } else {
                assert(m.query =~= u.query);
            }
        }
        if t.query.len() == 1 {
            lemma_join_push(encode_actions(u.query), encode_action(t.query[0]), seq!['/']);
            assert(encode_actions(t.query) =~= seq![encode_action(t.query[0])]);
            assert(b == encode_action(t.query[0]));
        } else {
            assert(encode_actions(t.query) =~= Seq::<Seq<char>>::empty());
            assert(b == t.filename->0.name);
        }
        assert(encode_transform(m) == a + seq!['/'] + b);
        let parts = encode_segments(pre);
        assert(encode_segments(q.segments) =~= parts.push(a).push(b));
        assert(encode_segments(joined.segments) =~= parts.push(a + seq!['/'] + b));
        lemma_join_last_two(parts, a, b);
        assert(!q.is_resource_query());
        assert(!joined.is_resource_query());
    }
}

// ---------------------------------------------------------------------------
// Equality
// ---------------------------------------------------------------------------
impl PartialEq for ResourceName {
    /// Two names are equal where their texts are, wherever they stand.
    fn eq(&self, other: &Self) -> (r: bool) {
        self.name == other.name
    }
}

impl vstd::std_specs::cmp::PartialEqSpecImpl for ResourceName {
    open spec fn obeys_eq_spec() -> bool {
        true
    }

    open spec fn eq_spec(&self, other: &Self) -> bool {
        self.name@ == other.name@
    }
}

impl Eq for ResourceName {

}

impl PartialEq for Key {
    /// Two keys are equal where they have the same names in the same
    /// order.
    fn eq(&self, other: &Self) -> (r: bool) {
        if self.0.len() != other.0.len() {
            assert(name_texts(self@).len() != name_texts(other@).len());
            return false;
        }
        let mut i: usize = 0;
        while i < self.0.len()
            invariant
                i <= self.0.len(),
                self.0.len() == other.0.len(),
                forall|j: int| 0 <= j < i ==> name_texts(self@)[j] == name_texts(other@)[j],
            decreases self.0.len() - i,
        {
            assert(name_texts(self@)[i as int] == self.0@[i as int].name@);
            assert(name_texts(other@)[i as int] == other.0@[i as int].name@);
            if !same_text(self.0[i].name.as_str(), other.0[i].name.as_str()) {
                return false;
            }
            i += 1;
        }
        assert(name_texts(self@) =~= name_texts(other@));
        true
    }
}

impl vstd::std_specs::cmp::PartialEqSpecImpl for Key {
    open spec fn obeys_eq_spec() -> bool {
        true
    }

    open spec fn eq_spec(&self, other: &Self) -> bool {
        name_texts(self@) == name_texts(other@)
    }
}

impl Eq for Key {

}

} // verus!
