//! Plans: what is to be done, in order, to evaluate a query.
use crate::command_metadata::{
    ArgumentInfo, ArgumentInfoView, ArgumentType, ArgumentTypeView, CommandMetadata,
    CommandMetadataRegistry, CommandMetadataView, DefaultValue, DefaultValueView, default_fits,
    find_command_in_namespaces, value_fits,
};
use crate::error::{
    Error, ErrorType, ErrorView, action_not_registered_message, conversion_message, error_at,
    missing_argument_message, plain_error,
};
use crate::query::{
    ActionParameter, ActionParameterView, ActionRequest, ActionRequestView, Key, Position, Query,
    QuerySegment, QuerySegmentView, QueryView, ResourceName, ResourceNameView,
    ResourceQuerySegment, ResourceQuerySegmentView, SegmentHeader, SegmentHeaderView,
    encode_header, last_ns_of, parameters_view,
};
use crate::text::{same_text, texts};
use crate::value::{Value, ValueInterface, ValueView};
use vstd::prelude::*;
use vstd::string::StringExecFns;

verus! {

/// The value of one argument of an action, and where in the query it was
/// given.
#[derive(Debug)]
pub struct Parameter {
    pub value: Value,
    pub position: Position,
}

pub struct ParameterView {
    pub value: ValueView,
    pub position: Position,
}

impl View for Parameter {
    type V = ParameterView;

    open spec fn view(&self) -> ParameterView {
        ParameterView { value: self.value@, position: self.position }
    }
}

impl Clone for Parameter {
    fn clone(&self) -> (r: Parameter)
        ensures
            r@ == self@,
    {
        Parameter { value: self.value.clone(), position: self.position }
    }
}

impl Default for Parameter {
    fn default() -> (r: Parameter)
        ensures
            r@ == (ParameterView { value: ValueView::Empty, position: Position::spec_unknown() }),
    {
        Parameter { value: Value::Empty, position: Position::unknown() }
    }
}

/// The arguments of an action: one value for each argument of the command
/// in the order of their declaration, and for each argument whose value is
/// the result of a query, its index and the query. Such an argument holds
/// the empty value until the query is evaluated.
#[derive(Debug)]
pub struct ResolvedParameters {
    pub parameters: Vec<Parameter>,
    pub links: Vec<(usize, Query)>,
}

pub struct ResolvedParametersView {
    pub parameters: Seq<ParameterView>,
    pub links: Seq<(nat, QueryView)>,
}

pub open spec fn parameter_values_view(ps: Seq<Parameter>) -> Seq<ParameterView> {
    Seq::new(ps.len(), |i: int| ps[i]@)
}

pub open spec fn links_view(links: Seq<(usize, Query)>) -> Seq<(nat, QueryView)> {
    Seq::new(links.len(), |i: int| (links[i].0 as nat, links[i].1@))
}

impl View for ResolvedParameters {
    type V = ResolvedParametersView;

    open spec fn view(&self) -> ResolvedParametersView {
        ResolvedParametersView {
            parameters: parameter_values_view(self.parameters@),
            links: links_view(self.links@),
        }
    }
}

impl ResolvedParametersView {
    pub open spec fn empty() -> ResolvedParametersView {
        ResolvedParametersView { parameters: Seq::empty(), links: Seq::empty() }
    }
}

impl Clone for ResolvedParameters {
    fn clone(&self) -> (r: ResolvedParameters)
        ensures
            r@ == self@,
    {
        let mut parameters: Vec<Parameter> = Vec::new();
        let mut i: usize = 0;
        while i < self.parameters.len()
            invariant
                i <= self.parameters.len(),
                parameters.len() == i,
                forall|j: int| 0 <= j < i ==> parameters@[j]@ == self.parameters@[j]@,
            decreases self.parameters.len() - i,
        {
            parameters.push(self.parameters[i].clone());
            i += 1;
        }
        let mut links: Vec<(usize, Query)> = Vec::new();
        let mut k: usize = 0;
        while k < self.links.len()
            invariant
                k <= self.links.len(),
                links.len() == k,
                forall|j: int|
                    0 <= j < k ==> links@[j].0 == self.links@[j].0 && links@[j].1@
                        == self.links@[j].1@,
            decreases self.links.len() - k,
        {
            let link = &self.links[k];
            links.push((link.0, link.1.clone()));
            k += 1;
        }
        assert(parameter_values_view(parameters@) =~= parameter_values_view(self.parameters@));
        assert(links_view(links@) =~= links_view(self.links@));
        ResolvedParameters { parameters, links }
    }
}

impl ResolvedParameters {
    pub fn new() -> (r: ResolvedParameters)
        ensures
            r@ == ResolvedParametersView::empty(),
    {
        let r = ResolvedParameters { parameters: Vec::new(), links: Vec::new() };
        assert(r@.parameters =~= Seq::empty());
        assert(r@.links =~= Seq::empty());
        r
    }

    pub fn clear(&mut self)
        ensures
            final(self)@ == ResolvedParametersView::empty(),
    {
        self.parameters.clear();
        self.links.clear();
        assert(self@.parameters =~= Seq::empty());
        assert(self@.links =~= Seq::empty());
    }
}

/// One step of a plan.
#[derive(Debug)]
pub enum Step {
    GetResource(Key),
    GetResourceMetadata(Key),
    Evaluate(Query),
    Action {
        realm: String,
        ns: String,
        action_name: String,
        position: Position,
        parameters: ResolvedParameters,
    },
    Filename(ResourceName),
    Info(String),
    Warning(String),
    Error(String),
    Plan(Plan),
}

#[derive(Debug)]
pub struct Plan {
    pub query: Query,
    pub steps: Vec<Step>,
}

pub enum StepView {
    GetResource(Seq<ResourceNameView>),
    GetResourceMetadata(Seq<ResourceNameView>),
    Evaluate(QueryView),
    Action {
        realm: Seq<char>,
        ns: Seq<char>,
        action_name: Seq<char>,
        position: Position,
        parameters: ResolvedParametersView,
    },
    Filename(ResourceNameView),
    Info(Seq<char>),
    Warning(Seq<char>),
    Error(Seq<char>),
    Plan(PlanView),
}

pub struct PlanView {
    pub query: QueryView,
    pub steps: Seq<StepView>,
}

pub open spec fn step_view(s: Step) -> StepView
    decreases s,
{
    match s {
        Step::GetResource(key) => StepView::GetResource(key@),
        Step::GetResourceMetadata(key) => StepView::GetResourceMetadata(key@),
        Step::Evaluate(q) => StepView::Evaluate(q@),
        Step::Action { realm, ns, action_name, position, parameters } => StepView::Action {
            realm: realm@,
            ns: ns@,
            action_name: action_name@,
            position,
            parameters: parameters@,
        },
        Step::Filename(name) => StepView::Filename(name@),
        Step::Info(m) => StepView::Info(m@),
        Step::Warning(m) => StepView::Warning(m@),
        Step::Error(m) => StepView::Error(m@),
        Step::Plan(p) => StepView::Plan(plan_view(p)),
    }
}

pub open spec fn steps_view(steps: Seq<Step>) -> Seq<StepView>
    decreases steps,
{
    Seq::new(
        steps.len(),
        |i: int|
            if 0 <= i < steps.len() {
                step_view(steps[i])
            } else {
                arbitrary()
            },
    )
}

pub open spec fn plan_view(p: Plan) -> PlanView
    decreases p,
{
    PlanView { query: p.query@, steps: steps_view(p.steps@) }
}

impl View for Step {
    type V = StepView;

    open spec fn view(&self) -> StepView {
        step_view(*self)
    }
}

impl View for Plan {
    type V = PlanView;

    open spec fn view(&self) -> PlanView {
        plan_view(*self)
    }
}

fn clone_step(s: &Step) -> (r: Step)
    ensures
        r@ == s@,
    decreases s,
{
    match s {
        Step::GetResource(key) => Step::GetResource(key.clone()),
        Step::GetResourceMetadata(key) => Step::GetResourceMetadata(key.clone()),
        Step::Evaluate(q) => Step::Evaluate(q.clone()),
        Step::Action { realm, ns, action_name, position, parameters } => Step::Action {
            realm: realm.clone(),
            ns: ns.clone(),
            action_name: action_name.clone(),
            position: *position,
            parameters: parameters.clone(),
        },
        Step::Filename(name) => Step::Filename(name.clone()),
        Step::Info(m) => Step::Info(m.clone()),
        Step::Warning(m) => Step::Warning(m.clone()),
        Step::Error(m) => Step::Error(m.clone()),
        Step::Plan(p) => Step::Plan(clone_plan(p)),
    }
}

fn clone_steps(steps: &Vec<Step>) -> (r: Vec<Step>)
    ensures
        steps_view(r@) == steps_view(steps@),
    decreases steps,
{
    let mut out: Vec<Step> = Vec::new();
    let mut i: usize = 0;
    while i < steps.len()
        invariant
            i <= steps.len(),
            out.len() == i,
            forall|j: int| 0 <= j < i ==> out@[j]@ == steps@[j]@,
        decreases steps.len() - i,
    {
        out.push(clone_step(&steps[i]));
        i += 1;
    }
    assert(steps_view(out@) =~= steps_view(steps@));
    out
}

fn clone_plan(p: &Plan) -> (r: Plan)
    ensures
        r@ == p@,
    decreases p,
{
    Plan { query: p.query.clone(), steps: clone_steps(&p.steps) }
}

impl Clone for Step {
    fn clone(&self) -> (r: Step)
        ensures
            r@ == self@,
    {
        clone_step(self)
    }
}

impl Clone for Plan {
    fn clone(&self) -> (r: Plan)
        ensures
            r@ == self@,
    {
        clone_plan(self)
    }
}

impl Step {
    pub fn is_error(&self) -> (r: bool)
        ensures
            r == (self@ is Error),
    {
        match self {
            Step::Error(_) => true,
            _ => false,
        }
    }

    pub fn is_warning(&self) -> (r: bool)
        ensures
            r == (self@ is Warning),
    {
        match self {
            Step::Warning(_) => true,
            _ => false,
        }
    }
}

impl PlanView {
    pub open spec fn has_error(self) -> bool {
        exists|i: int| 0 <= i < self.steps.len() && (#[trigger] self.steps[i]) is Error
    }

    pub open spec fn has_warning(self) -> bool {
        exists|i: int| 0 <= i < self.steps.len() && (#[trigger] self.steps[i]) is Warning
    }

    /// The steps from step `from` on; none where the plan has fewer steps.
    pub open spec fn rest(self, from: nat) -> Seq<StepView> {
        if from <= self.steps.len() {
            self.steps.skip(from as int)
        } else {
            Seq::empty()
        }
    }
}

impl Plan {
    /// The plan of the empty query: nothing to do.
    pub fn new() -> (p: Plan)
        ensures
            p@ == (PlanView {
                query: QueryView { segments: Seq::empty(), absolute: false },
                steps: Seq::empty(),
            }),
    {
        let p = Plan { query: Query::new(), steps: Vec::new() };
        assert(p@.steps =~= Seq::empty());
        p
    }

    /// The steps of the plan from step `from` on.
    pub fn steps_from(&self, from: usize) -> (r: Vec<Step>)
        ensures
            steps_view(r@) == self@.rest(from as nat),
    {
        let mut out: Vec<Step> = Vec::new();
        if from > self.steps.len() {
            assert(steps_view(out@) =~= Seq::<StepView>::empty());
            return out;
        }
        let mut i: usize = from;
        while i < self.steps.len()
            invariant
                from <= i <= self.steps.len(),
                out.len() == i - from,
                forall|j: int| 0 <= j < i - from ==> out@[j]@ == self.steps@[from + j]@,
            decreases self.steps.len() - i,
        {
            out.push(self.steps[i].clone());
            i += 1;
        }
        assert(steps_view(out@) =~= self@.steps.skip(from as int));
        out
    }

    pub fn info(&mut self, message: String)
        ensures
            final(self)@ == (PlanView {
                steps: old(self)@.steps.push(StepView::Info(message@)),
                ..old(self)@
            }),
    {
        let ghost before = steps_view(self.steps@);
        self.steps.push(Step::Info(message));
        assert(steps_view(self.steps@) =~= before.push(StepView::Info(message@)));
    }

    pub fn warning(&mut self, message: String)
        ensures
            final(self)@ == (PlanView {
                steps: old(self)@.steps.push(StepView::Warning(message@)),
                ..old(self)@
            }),
    {
        let ghost before = steps_view(self.steps@);
        self.steps.push(Step::Warning(message));
        assert(steps_view(self.steps@) =~= before.push(StepView::Warning(message@)));
    }

    pub fn error(&mut self, message: String)
        ensures
            final(self)@ == (PlanView {
                steps: old(self)@.steps.push(StepView::Error(message@)),
                ..old(self)@
            }),
    {
        let ghost before = steps_view(self.steps@);
        self.steps.push(Step::Error(message));
        assert(steps_view(self.steps@) =~= before.push(StepView::Error(message@)));
    }

    pub fn has_error(&self) -> (r: bool)
        ensures
            r == self@.has_error(),
    {
        let mut i: usize = 0;
        while i < self.steps.len()
            invariant
                i <= self.steps.len(),
                forall|j: int| 0 <= j < i ==> !((#[trigger] self@.steps[j]) is Error),
            decreases self.steps.len() - i,
        {
            assert(self@.steps[i as int] == self.steps@[i as int]@);
            if self.steps[i].is_error() {
                return true;
            }
            i += 1;
        }
        false
    }

    pub fn has_warning(&self) -> (r: bool)
        ensures
            r == self@.has_warning(),
    {
        let mut i: usize = 0;
        while i < self.steps.len()
            invariant
                i <= self.steps.len(),
                forall|j: int| 0 <= j < i ==> !((#[trigger] self@.steps[j]) is Warning),
            decreases self.steps.len() - i,
        {
            assert(self@.steps[i as int] == self.steps@[i as int]@);
            if self.steps[i].is_warning() {
                return true;
            }
            i += 1;
        }
        false
    }
}

// ---------------------------------------------------------------------------
// What planning means
// ---------------------------------------------------------------------------
/// The namespaces that are searched after those that the query names: the
/// empty namespace and `root`.
pub open spec fn fallback_namespaces() -> Seq<Seq<char>> {
    seq![Seq::empty(), "root"@]
}

/// The texts of parameters that are all strings.
pub open spec fn string_parameters(ps: Seq<ActionParameterView>) -> Option<Seq<Seq<char>>>
    decreases ps.len(),
{
    if ps.len() == 0 {
        Some(Seq::empty())
    } else {
        match (ps.last(), string_parameters(ps.drop_last())) {
            (ActionParameterView::String(text, _), Some(before)) => Some(before.push(text)),
            _ => None,
        }
    }
}

/// The parameters of the namespace directive that holds for an action that
/// follows `before`: those of the last directive in the last segment of
/// `before`, where that is a transform segment.
pub open spec fn namespace_directive(before: QueryView) -> Option<Seq<ActionParameterView>> {
    if before.segments.len() > 0 && before.segments.last() is Transform {
        last_ns_of(before.segments.last()->Transform_0.query)
    } else {
        None
    }
}

pub open spec fn link_in_ns_error() -> ErrorView {
    plain_error(ErrorType::NotSupported, "Only string parameters are supported in ns"@)
}

/// The namespaces in which the command of an action that follows `before`
/// is looked up, in the order of the search.
pub open spec fn namespaces_after(before: QueryView) -> Result<Seq<Seq<char>>, ErrorView> {
    match namespace_directive(before) {
        Some(ps) => match string_parameters(ps) {
            Some(names) => Ok(names + fallback_namespaces()),
            None => Err(link_in_ns_error()),
        },
        None => Ok(fallback_namespaces()),
    }
}

pub open spec fn no_type_error() -> ErrorView {
    plain_error(ErrorType::NotSupported, "None not supported"@)
}

/// The value of the text `text`, given at `position`, for an argument of
/// the type `argument_type`. A text that the type does not take is a
/// `ParameterError` with an enum and a `ConversionError` with the other
/// types, at `position`; an argument without a type is not supported.
pub open spec fn typed_value(argument_type: ArgumentTypeView, text: Seq<char>, position: Position)
    -> Result<ValueView, ErrorView> {
    if argument_type is Unspecified {
        Err(no_type_error())
    } else if argument_type.takes_text(text) {
        Ok(argument_type.value_of_text(text))
    } else if argument_type is Enum {
        Err(
            error_at(
                ErrorType::ParameterError,
                conversion_message(text, argument_type.label()),
                position,
            ),
        )
    } else {
        Err(
            error_at(
                ErrorType::ConversionError,
                conversion_message(text, argument_type.label()),
                position,
            ),
        )
    }
}

impl ResolvedParametersView {
    /// One more argument with the value `value`.
    pub open spec fn with_value(self, value: ValueView, position: Position)
        -> ResolvedParametersView {
        ResolvedParametersView {
            parameters: self.parameters.push(ParameterView { value, position }),
            links: self.links,
        }
    }

    /// One more argument whose value is the result of `query`.
    pub open spec fn with_link(self, query: QueryView, position: Position)
        -> ResolvedParametersView {
        ResolvedParametersView {
            parameters: self.parameters.push(ParameterView { value: ValueView::Empty, position }),
            links: self.links.push((self.parameters.len(), query)),
        }
    }
}

/// What an argument takes before it is held against its type: a value
/// or a link, with the position that it is given at.
pub enum Taken {
    Value(ValueView, Position),
    Link(QueryView, Position),
}

/// What argument `i` takes. It takes parameter `i` of the action where
/// the action has one: a string as a text, a link as it is. Else it takes
/// its default, at the position of the action, and is missing where it has
/// none.
pub open spec fn taken(argument: ArgumentInfoView, action: ActionRequestView, i: int) -> Result<
    Taken,
    ErrorView,
> {
    if 0 <= i < action.parameters.len() {
        match action.parameters[i] {
            ActionParameterView::String(text, position) => Ok(
                Taken::Value(ValueView::Text(text), position),
            ),
            ActionParameterView::Link(query, position) => Ok(Taken::Link(query, position)),
        }
    } else {
        match argument.default {
            DefaultValueView::Value(value) => Ok(Taken::Value(value, action.position)),
            DefaultValueView::Query(query) => Ok(Taken::Link(query, action.position)),
            DefaultValueView::NoDefault => Err(
                error_at(
                    ErrorType::ArgumentMissing,
                    missing_argument_message(i as nat, argument.name),
                    action.position,
                ),
            ),
        }
    }
}

/// The value that an argument of the type `argument_type` has for
/// `value`, given at `position`. A text is read as the type says. Another
/// value stays as it is where it goes with the type, and is a
/// `ConversionError` at `position` where it does not; an argument without
/// a type is not supported.
pub open spec fn checked_value(
    argument_type: ArgumentTypeView,
    value: ValueView,
    position: Position,
) -> Result<ValueView, ErrorView> {
    match value {
        ValueView::Text(text) => typed_value(argument_type, text, position),
        _ => if argument_type is Unspecified {
            Err(no_type_error())
        } else if default_fits(argument_type, value) {
            Ok(value)
        } else {
            Err(
                error_at(
                    ErrorType::ConversionError,
                    conversion_message(value.type_label(), argument_type.label()),
                    position,
                ),
            )
        },
    }
}

/// `so_far` with what argument `i` resolves to: the value that it takes,
/// held against its type, or the link that it takes, kept to be
/// evaluated.
pub open spec fn resolve_argument(
    argument: ArgumentInfoView,
    action: ActionRequestView,
    i: int,
    so_far: ResolvedParametersView,
) -> Result<ResolvedParametersView, ErrorView> {
    match taken(argument, action, i) {
        Ok(Taken::Value(value, position)) => match checked_value(
            argument.argument_type,
            value,
            position,
        ) {
            Ok(value) => Ok(so_far.with_value(value, position)),
            Err(e) => Err(e),
        },
        Ok(Taken::Link(query, position)) => Ok(so_far.with_link(query, position)),
        Err(e) => Err(e),
    }
}

/// What the first `n` arguments resolve to, or the first error among
/// them.
pub open spec fn resolve_arguments(
    arguments: Seq<ArgumentInfoView>,
    action: ActionRequestView,
    n: int,
) -> Result<ResolvedParametersView, ErrorView>
    decreases n,
{
    if n <= 0 {
        Ok(ResolvedParametersView::empty())
    } else {
        match resolve_arguments(arguments, action, n - 1) {
            Ok(so_far) => resolve_argument(arguments[n - 1], action, n - 1, so_far),
            Err(e) => Err(e),
        }
    }
}

/// The realm of the actions of a segment: the name in its header.
pub open spec fn realm_of(header: Option<SegmentHeaderView>) -> Seq<char> {
    match header {
        Some(h) => h.name,
        None => Seq::empty(),
    }
}

/// The step for `action`, which stands in a segment under `header` and
/// follows `before`.
pub open spec fn action_step(
    before: QueryView,
    header: Option<SegmentHeaderView>,
    action: ActionRequestView,
    registry: Seq<CommandMetadataView>,
) -> Result<StepView, ErrorView> {
    match namespaces_after(before) {
        Err(e) => Err(e),
        Ok(namespaces) => match find_command_in_namespaces(
            registry,
            realm_of(header),
            namespaces,
            action.name,
            0,
        ) {
            None => Err(
                error_at(
                    ErrorType::ActionNotRegistered,
                    action_not_registered_message(action.name, namespaces),
                    action.position,
                ),
            ),
            Some(command) => match resolve_arguments(
                command.arguments,
                action,
                command.arguments.len() as int,
            ) {
                Err(e) => Err(e),
                Ok(parameters) => Ok(
                    StepView::Action {
                        realm: command.realm,
                        ns: command.namespace,
                        action_name: action.name,
                        position: action.position,
                        parameters,
                    },
                ),
            },
        },
    }
}

pub open spec fn meta_text() -> Seq<char> {
    seq!['m', 'e', 't', 'a']
}

pub open spec fn after_meta_message(header: SegmentHeaderView) -> Seq<char> {
    "Resource segment '"@ + encode_header(header) + "...' parameters after meta at "@
        + header.parameters[1].position.text() + " ignored"@
}

pub open spec fn parameters_ignored_message(header: SegmentHeaderView) -> Seq<char> {
    "Resource segment '"@ + encode_header(header) + "...' parameters at "@
        + header.parameters[0].position.text() + " ignored"@
}

/// The steps for a resource segment: the resource is fetched, or its
/// metadata where the first parameter of the header is `meta`. Parameters
/// of the header that mean nothing are warned of first.
pub open spec fn resource_steps(r: ResourceQuerySegmentView) -> Seq<StepView> {
    match r.header {
        Some(header) => if header.parameters.len() == 0 {
            seq![StepView::GetResource(r.key)]
        } else if header.parameters[0].value == meta_text() {
            if header.parameters.len() > 1 {
                seq![
                    StepView::Warning(after_meta_message(header)),
                    StepView::GetResourceMetadata(r.key),
                ]
            } else {
                seq![StepView::GetResourceMetadata(r.key)]
            }
        } else {
            seq![
                StepView::Warning(parameters_ignored_message(header)),
                StepView::GetResource(r.key),
            ]
        },
        None => seq![StepView::GetResource(r.key)],
    }
}

/// How much of the last segment is left.
pub open spec fn last_size(q: QueryView) -> nat {
    if q.segments.len() == 0 {
        0
    } else {
        match q.segments.last() {
            QuerySegmentView::Resource(_) => 0,
            QuerySegmentView::Transform(t) => t.query.len() + if t.filename is Some {
                1nat
            } else {
                0nat
            },
        }
    }
}

pub open spec fn unexpected_segment_error() -> ErrorView {
    plain_error(ErrorType::NotSupported, "Unexpected query segment"@)
}

/// The steps of the plan of `q`. An empty query and a query that is one
/// namespace directive need nothing done. Any other query is split into
/// the query before its last step and that step; the steps of the former
/// come first, then those of the last step: those of a resource segment,
/// the action resolved against the registry, or the filename. A namespace
/// directive is no step of its own.
pub open spec fn plan_steps(q: QueryView, registry: Seq<CommandMetadataView>) -> Result<
    Seq<StepView>,
    ErrorView,
>
    decreases q.segments.len(), last_size(q),
    via plan_steps_ends
{
    if q.is_empty() || q.is_ns() {
        Ok(Seq::empty())
    } else {
        let (before, last) = q.predecessor();
        match plan_steps(before->0, registry) {
            Err(e) => Err(e),
            Ok(steps) => match last {
                None => Ok(steps),
                Some(QuerySegmentView::Resource(r)) => Ok(steps + resource_steps(r)),
                Some(QuerySegmentView::Transform(t)) => if t.is_ns() {
                    Ok(steps)
                } else if t.is_action_request() {
                    match action_step(before->0, t.header, t.query[0], registry) {
                        Ok(step) => Ok(steps.push(step)),
                        Err(e) => Err(e),
                    }
                } else if t.is_filename() {
                    Ok(steps.push(StepView::Filename(t.filename->0)))
                } else {
                    Err(unexpected_segment_error())
                },
            },
        }
    }
}

/// Planning ends: the query before the last step is shorter than the
/// query.
#[via_fn]
proof fn plan_steps_ends(q: QueryView, registry: Seq<CommandMetadataView>) {
    if !(q.is_empty() || q.is_ns()) {
        lemma_predecessor_shorter(q);
    }
}

/// The plan of `q`.
pub open spec fn planned(q: QueryView, registry: Seq<CommandMetadataView>) -> Result<
    PlanView,
    ErrorView,
> {
    match plan_steps(q, registry) {
        Ok(steps) => Ok(PlanView { query: q, steps }),
        Err(e) => Err(e),
    }
}

/// The query before the last step of a query that is not empty is
/// shorter: it has fewer segments, or as many and less in the last.
pub proof fn lemma_predecessor_shorter(q: QueryView)
    requires
        q.segments.len() > 0,
    ensures
        q.predecessor().0 is Some,
        q.predecessor().0->0.segments.len() < q.segments.len() || (
        q.predecessor().0->0.segments.len() == q.segments.len() && last_size(
            q.predecessor().0->0,
        ) < last_size(q)),
{
    match q.segments.last() {
        QuerySegmentView::Resource(_) => {},
        QuerySegmentView::Transform(t) => {
            let (p, r) = t.predecessor();
            if !(p is None || p->0.is_empty()) {
                let shorter = q.predecessor().0->0;
                assert(shorter.segments.last() == QuerySegmentView::Transform(p->0));
            }
        },
    }
}

// ---------------------------------------------------------------------------
// Planning
// ---------------------------------------------------------------------------
fn namespaces_of(before: &Query) -> (r: Result<Vec<String>, Error>)
    ensures
        match r {
            Ok(names) => namespaces_after(before@) == Ok::<Seq<Seq<char>>, ErrorView>(
                texts(names@),
            ),
            Err(e) => namespaces_after(before@) == Err::<Seq<Seq<char>>, ErrorView>(e@),
        },
{
    let directive: Option<Vec<ActionParameter>> = if before.segments.len() > 0 {
        assert(before@.segments.last() == before.segments@[before.segments.len() - 1]@);
        match &before.segments[before.segments.len() - 1] {
            QuerySegment::Transform(t) => t.last_ns(),
            QuerySegment::Resource(_) => None,
        }
    } else {
        None
    };
    let mut names: Vec<String> = Vec::new();
    match directive {
        Some(ps) => {
            let ghost all = parameters_view(ps@);
            let mut i: usize = 0;
            assert(texts(names@) =~= Seq::empty());
            while i < ps.len()
                invariant
                    i <= ps.len(),
                    all == parameters_view(ps@),
                    namespace_directive(before@) == Some(all),
                    string_parameters(all.take(i as int)) == Some(texts(names@)),
                decreases ps.len() - i,
            {
                assert(all.take(i + 1).drop_last() =~= all.take(i as int));
                assert(all.take(i + 1).last() == ps@[i as int]@);
                match &ps[i] {
                    ActionParameter::String(text, _) => {
                        let ghost before_names = texts(names@);
                        names.push(text.clone());
                        assert(texts(names@) =~= before_names.push(text@));
                    },
                    ActionParameter::Link(_, _) => {
                        proof {
                            assert(string_parameters(all.take(i + 1)) is None);
                            lemma_string_parameters_prefix(all, i + 1);
                        }
                        return Err(
                            Error::not_supported(
                                String::from_str("Only string parameters are supported in ns"),
                            ),
                        );
                    },
                }
                i += 1;
            }
            assert(all.take(i as int) =~= all);
        },
        None => {
            assert(texts(names@) =~= Seq::empty());
        },
    }
    let ghost given = texts(names@);
    names.push(String::new());
    names.push(String::from_str("root"));
    assert(texts(names@) =~= given + fallback_namespaces());
    Ok(names)
}

/// Where the first `n` parameters are not all strings, neither are all of
/// them.
pub proof fn lemma_string_parameters_prefix(ps: Seq<ActionParameterView>, n: int)
    requires
        0 <= n <= ps.len(),
        string_parameters(ps.take(n)) is None,
    ensures
        string_parameters(ps) is None,
    decreases ps.len() - n,
{
    if n < ps.len() {
        assert(ps.take(n + 1).drop_last() =~= ps.take(n));
        lemma_string_parameters_prefix(ps, n + 1);
    } else {
        assert(ps.take(n) =~= ps);
    }
}

fn read_typed(argument_type: &ArgumentType, text: &str, position: &Position) -> (r: Result<
    Value,
    Error,
>)
    ensures
        match r {
            Ok(v) => typed_value(argument_type@, text@, *position) == Ok::<ValueView, ErrorView>(
                v@,
            ),
            Err(e) => typed_value(argument_type@, text@, *position) == Err::<
                ValueView,
                ErrorView,
            >(e@),
        },
{
    match argument_type {
        ArgumentType::Unspecified => {
            return Err(Error::not_supported(String::from_str("None not supported")));
        },
        _ => {},
    }
    match argument_type.read_text(text) {
        Some(v) => Ok(v),
        None => {
            let label = argument_type.label();
            let e = Error::conversion_error_at_position(text, label.as_str(), position);
            match argument_type {
                ArgumentType::Enum(_) => Err(
                    Error {
                        error_type: ErrorType::ParameterError,
                        message: e.message,
                        position: e.position,
                        query: e.query,
                    },
                ),
                _ => Err(e),
            }
        },
    }
}

fn push_value(so_far: &mut ResolvedParameters, value: Value, position: Position)
    ensures
        final(so_far)@ == old(so_far)@.with_value(value@, position),
{
    let ghost before = so_far@;
    so_far.parameters.push(Parameter { value, position });
    assert(so_far@.parameters =~= before.parameters.push(
        ParameterView { value: value@, position },
    ));
}

fn push_link(so_far: &mut ResolvedParameters, query: Query, position: Position)
    ensures
        final(so_far)@ == old(so_far)@.with_link(query@, position),
{
    let ghost before = so_far@;
    let index = so_far.parameters.len();
    so_far.links.push((index, query));
    so_far.parameters.push(Parameter { value: Value::Empty, position });
    assert(so_far@.parameters =~= before.parameters.push(
        ParameterView { value: ValueView::Empty, position },
    ));
    assert(so_far@.links =~= before.links.push((before.parameters.len(), query@)));
}

fn check_value(argument_type: &ArgumentType, value: Value, position: &Position) -> (r: Result<
    Value,
    Error,
>)
    ensures
        match r {
            Ok(v) => checked_value(argument_type@, value@, *position) == Ok::<
                ValueView,
                ErrorView,
            >(v@),
            Err(e) => checked_value(argument_type@, value@, *position) == Err::<
                ValueView,
                ErrorView,
            >(e@),
        },
{
    match &value {
        Value::Text(text) => {
            return read_typed(argument_type, text.as_str(), position);
        },
        _ => {},
    }
    match argument_type {
        ArgumentType::Unspecified => {
            return Err(Error::not_supported(String::from_str("None not supported")));
        },
        _ => {},
    }
    if value_fits(argument_type, &value) {
        Ok(value)
    } else {
        let what = value.type_label();
        let to = argument_type.label();
        Err(Error::conversion_error_at_position(what.as_str(), to.as_str(), position))
    }
}

fn push_steps(steps: &mut Vec<Step>, more: Vec<Step>)
    ensures
        steps_view(final(steps)@) == steps_view(old(steps)@) + steps_view(more@),
{
    let ghost before = steps_view(steps@);
    let ghost added = steps_view(more@);
    let mut more = more;
    steps.append(&mut more);
    assert(steps_view(steps@) =~= before + added);
}

fn resource_plan(rqs: &ResourceQuerySegment) -> (steps: Vec<Step>)
    ensures
        steps_view(steps@) == resource_steps(rqs@),
{
    let mut steps: Vec<Step> = Vec::new();
    let key = rqs.key.clone();
    match &rqs.header {
        Some(header) => {
            if header.parameters.len() == 0 {
                steps.push(Step::GetResource(key));
                assert(steps_view(steps@) =~= seq![StepView::GetResource(rqs@.key)]);
            } else {
                proof {
                    reveal_strlit("meta");
                    assert("meta"@ =~= meta_text());
                }
                assert(header@.parameters[0] == header.parameters@[0]@);
                let shown = header.encode();
                if same_text(header.parameters[0].value.as_str(), "meta") {
                    if header.parameters.len() > 1 {
                        assert(header@.parameters[1] == header.parameters@[1]@);
                        let place = header.parameters[1].position.to_string();
                        let message = String::from_str("Resource segment '").concat(
                            shown.as_str(),
                        ).concat("...' parameters after meta at ").concat(place.as_str()).concat(
                            " ignored",
                        );
                        steps.push(Step::Warning(message));
                        steps.push(Step::GetResourceMetadata(key));
                        assert(steps_view(steps@) =~= seq![
                            StepView::Warning(after_meta_message(header@)),
                            StepView::GetResourceMetadata(rqs@.key),
                        ]);
                    } else {
                        steps.push(Step::GetResourceMetadata(key));
                        assert(steps_view(steps@) =~= seq![
                            StepView::GetResourceMetadata(rqs@.key),
                        ]);
                    }
                } else {
                    let place = header.parameters[0].position.to_string();
                    let message = String::from_str("Resource segment '").concat(
                        shown.as_str(),
                    ).concat("...' parameters at ").concat(place.as_str()).concat(" ignored");
                    steps.push(Step::Warning(message));
                    steps.push(Step::GetResource(key));
                    assert(steps_view(steps@) =~= seq![
                        StepView::Warning(parameters_ignored_message(header@)),
                        StepView::GetResource(rqs@.key),
                    ]);
                }
            }
        },
        None => {
            steps.push(Step::GetResource(key));
            assert(steps_view(steps@) =~= seq![StepView::GetResource(rqs@.key)]);
        },
    }
    steps
}

/// Makes the plan of a query from what a registry knows of the commands.
pub struct PlanBuilder<'c> {
    query: Query,
    command_registry: &'c CommandMetadataRegistry,
    resolved_parameters: ResolvedParameters,
    parameter_number: usize,
    arginfo_number: usize,
    plan: Plan,
}

impl<'c> PlanBuilder<'c> {
    pub closed spec fn query(&self) -> QueryView {
        self.query@
    }

    pub closed spec fn registry(&self) -> Seq<CommandMetadataView> {
        self.command_registry@
    }

    pub closed spec fn steps(&self) -> Seq<StepView> {
        self.plan@.steps
    }

    pub fn new(query: Query, command_registry: &'c CommandMetadataRegistry) -> (b: Self)
        ensures
            b.query() == query@,
            b.registry() == command_registry@,
            b.steps() == Seq::<StepView>::empty(),
    {
        PlanBuilder {
            query,
            command_registry,
            resolved_parameters: ResolvedParameters::new(),
            parameter_number: 0,
            arginfo_number: 0,
            plan: Plan::new(),
        }
    }

    /// Plans the query of the builder.
    pub fn build(&mut self) -> (r: Result<Plan, Error>)
        ensures
            match r {
                Ok(plan) => planned(old(self).query(), old(self).registry()) == Ok::<
                    PlanView,
                    ErrorView,
                >(plan@),
                Err(e) => planned(old(self).query(), old(self).registry()) == Err::<
                    PlanView,
                    ErrorView,
                >(e@),
            },
            final(self).query() == old(self).query(),
            final(self).registry() == old(self).registry(),
    {
        let query = self.query.clone();
        self.plan = Plan { query: self.query.clone(), steps: Vec::new() };
        assert(self.plan@.steps =~= Seq::empty());
        match self.process_query(&query) {
            Ok(()) => {
                assert(Seq::<StepView>::empty() + self.plan@.steps =~= self.plan@.steps);
                self.plan.query = query;
                Ok(self.plan.clone())
            },
            Err(e) => Err(e),
        }
    }

    /// The namespaces in which the command of an action that follows
    /// `query` is looked up.
    fn get_namespaces(&self, query: &Query) -> (r: Result<Vec<String>, Error>)
        ensures
            match r {
                Ok(names) => namespaces_after(query@) == Ok::<Seq<Seq<char>>, ErrorView>(
                    texts(names@),
                ),
                Err(e) => namespaces_after(query@) == Err::<Seq<Seq<char>>, ErrorView>(e@),
            },
    {
        namespaces_of(query)
    }

    /// The command of `action_request`, which stands under `header` and
    /// follows `query`.
    fn get_command_metadata(
        &self,
        query: &Query,
        header: &Option<SegmentHeader>,
        action_request: &ActionRequest,
    ) -> (r: Result<CommandMetadata, Error>)
        ensures
            match namespaces_after(query@) {
                Err(e) => r is Err && r->Err_0@ == e,
                Ok(namespaces) => match find_command_in_namespaces(
                    self.registry(),
                    realm_of(crate::query::option_header_view(*header)),
                    namespaces,
                    action_request@.name,
                    0,
                ) {
                    Some(command) => r is Ok && r->Ok_0@ == command,
                    None => r is Err && r->Err_0@ == error_at(
                        ErrorType::ActionNotRegistered,
                        action_not_registered_message(action_request@.name, namespaces),
                        action_request@.position,
                    ),
                },
            },
    {
        let namespaces = match self.get_namespaces(query) {
            Ok(namespaces) => namespaces,
            Err(e) => {
                return Err(e);
            },
        };
        let realm = match header {
            Some(h) => h.name.clone(),
            None => String::new(),
        };
        match self.command_registry.find_command_in_namespaces(
            realm.as_str(),
            &namespaces,
            action_request.name.as_str(),
        ) {
            Some(command) => Ok(command),
            None => Err(Error::action_not_registered(action_request, &namespaces)),
        }
    }

    fn process_resource_query(&mut self, rqs: &ResourceQuerySegment) -> (r: Result<(), Error>)
        ensures
            r is Ok,
            final(self).steps() == old(self).steps() + resource_steps(rqs@),
            final(self).query() == old(self).query(),
            final(self).registry() == old(self).registry(),
    {
        push_steps(&mut self.plan.steps, resource_plan(rqs));
        Ok(())
    }

    /// Resolves the arguments of `command_metadata` against the parameters
    /// of `action_request`.
    fn get_parameters(&mut self, command_metadata: &CommandMetadata, action_request: &ActionRequest)
        -> (r: Result<(), Error>)
        ensures
            match r {
                Ok(()) => resolve_arguments(
                    command_metadata@.arguments,
                    action_request@,
                    command_metadata@.arguments.len() as int,
                ) == Ok::<ResolvedParametersView, ErrorView>(final(self).resolved_parameters@),
                Err(e) => resolve_arguments(
                    command_metadata@.arguments,
                    action_request@,
                    command_metadata@.arguments.len() as int,
                ) == Err::<ResolvedParametersView, ErrorView>(e@),
            },
            final(self).steps() == old(self).steps(),
            final(self).query() == old(self).query(),
            final(self).registry() == old(self).registry(),
    {
        self.arginfo_number = 0;
        self.parameter_number = 0;
        self.resolved_parameters = ResolvedParameters::new();
        let mut i: usize = 0;
        while i < command_metadata.arguments.len()
            invariant
                i <= command_metadata.arguments.len(),
                resolve_arguments(command_metadata@.arguments, action_request@, i as int) == Ok::<
                    ResolvedParametersView,
                    ErrorView,
                >(self.resolved_parameters@),
                self.steps() == old(self).steps(),
                self.query() == old(self).query(),
                self.registry() == old(self).registry(),
            decreases command_metadata.arguments.len() - i,
        {
            self.arginfo_number = i;
            assert(command_metadata@.arguments[i as int] == command_metadata.arguments@[i as int]@);
            match self.pop_value(&command_metadata.arguments[i], action_request) {
                Ok(()) => {},
                Err(e) => {
                    proof {
                        lemma_first_error_stays(
                            command_metadata@.arguments,
                            action_request@,
                            i + 1,
                            command_metadata@.arguments.len() as int,
                        );
                    }
                    return Err(e);
                },
            }
            i += 1;
        }
        Ok(())
    }

    /// Takes what the argument whose number is `arginfo_number` is given:
    /// the parameter of that number, or the default. A value comes back
    /// with its position; a link is recorded and nothing comes back.
    fn pop_action_parameter(
        &mut self,
        arginfo: &ArgumentInfo,
        action_request: &ActionRequest,
    ) -> (r: Result<Option<(Value, Position)>, Error>)
        ensures
            match r {
                Ok(Some(found)) => taken(
                    arginfo@,
                    action_request@,
                    old(self).arginfo_number as int,
                ) == Ok::<Taken, ErrorView>(Taken::Value(found.0@, found.1))
                    && final(self).resolved_parameters@ == old(self).resolved_parameters@,
                Ok(None) => match taken(
                    arginfo@,
                    action_request@,
                    old(self).arginfo_number as int,
                ) {
                    Ok(Taken::Link(query, position)) => final(self).resolved_parameters@
                        == old(self).resolved_parameters@.with_link(query, position),
                    _ => false,
                },
                Err(e) => taken(arginfo@, action_request@, old(self).arginfo_number as int)
                    == Err::<Taken, ErrorView>(e@)
                        && final(self).resolved_parameters@ == old(self).resolved_parameters@,
            },
            final(self).steps() == old(self).steps(),
            final(self).query() == old(self).query(),
            final(self).registry() == old(self).registry(),
            final(self).arginfo_number == old(self).arginfo_number,
    {
        let i = self.arginfo_number;
        if i < action_request.parameters.len() {
            assert(action_request@.parameters[i as int] == action_request.parameters@[i as int]@);
            self.parameter_number = i;
            match &action_request.parameters[i] {
                ActionParameter::String(text, position) => Ok(
                    Some((Value::Text(text.clone()), *position)),
                ),
                ActionParameter::Link(query, position) => {
                    push_link(&mut self.resolved_parameters, query.clone(), *position);
                    Ok(None)
                },
            }
        } else {
            match &arginfo.default {
                DefaultValue::Value(value) => Ok(Some((value.clone(), action_request.position))),
                DefaultValue::Query(query) => {
                    push_link(
                        &mut self.resolved_parameters,
                        query.clone(),
                        action_request.position,
                    );
                    Ok(None)
                },
                DefaultValue::NoDefault => Err(
                    Error::missing_argument(i, arginfo.name.as_str(), &action_request.position),
                ),
            }
        }
    }

    /// Resolves the argument whose number is `arginfo_number`: holds the
    /// value that it takes against its type.
    fn pop_value(&mut self, arginfo: &ArgumentInfo, action_request: &ActionRequest) -> (r: Result<
        (),
        Error,
    >)
        ensures
            match r {
                Ok(()) => resolve_argument(
                    arginfo@,
                    action_request@,
                    old(self).arginfo_number as int,
                    old(self).resolved_parameters@,
                ) == Ok::<ResolvedParametersView, ErrorView>(final(self).resolved_parameters@),
                Err(e) => resolve_argument(
                    arginfo@,
                    action_request@,
                    old(self).arginfo_number as int,
                    old(self).resolved_parameters@,
                ) == Err::<ResolvedParametersView, ErrorView>(e@),
            },
            final(self).steps() == old(self).steps(),
            final(self).query() == old(self).query(),
            final(self).registry() == old(self).registry(),
            final(self).arginfo_number == old(self).arginfo_number,
    {
        match self.pop_action_parameter(arginfo, action_request) {
            Err(e) => Err(e),
            Ok(None) => Ok(()),
            Ok(Some((value, position))) => match check_value(
                &arginfo.argument_type,
                value,
                &position,
            ) {
                Ok(value) => {
                    push_value(&mut self.resolved_parameters, value, position);
                    Ok(())
                },
                Err(e) => Err(e),
            },
        }
    }

    /// Appends the step of `action_request`, which stands under `header`
    /// and follows `query`.
    fn process_action(
        &mut self,
        query: &Query,
        header: &Option<SegmentHeader>,
        action_request: &ActionRequest,
    ) -> (r: Result<(), Error>)
        ensures
            match action_step(
                query@,
                crate::query::option_header_view(*header),
                action_request@,
                old(self).registry(),
            ) {
                Ok(step) => r is Ok && final(self).steps() == old(self).steps().push(step),
                Err(e) => r is Err && r->Err_0@ == e,
            },
            final(self).query() == old(self).query(),
            final(self).registry() == old(self).registry(),
    {
        let command_metadata = match self.get_command_metadata(query, header, action_request) {
            Ok(c) => c,
            Err(e) => {
                return Err(e);
            },
        };
        match self.get_parameters(&command_metadata, action_request) {
            Ok(()) => {},
            Err(e) => {
                return Err(e);
            },
        }
        let step = Step::Action {
            realm: command_metadata.realm.clone(),
            ns: command_metadata.namespace.clone(),
            action_name: action_request.name.clone(),
            position: action_request.position,
            parameters: self.resolved_parameters.clone(),
        };
        let ghost before = steps_view(self.plan.steps@);
        let ghost shown = step@;
        self.plan.steps.push(step);
        assert(steps_view(self.plan.steps@) =~= before.push(shown));
        Ok(())
    }

    /// Appends the steps of `query` to the plan.
    fn process_query(&mut self, query: &Query) -> (r: Result<(), Error>)
        ensures
            match plan_steps(query@, old(self).registry()) {
                Ok(steps) => r is Ok && final(self).steps() == old(self).steps() + steps,
                Err(e) => r is Err && r->Err_0@ == e,
            },
            final(self).query() == old(self).query(),
            final(self).registry() == old(self).registry(),
        decreases query@.segments.len(), last_size(query@),
    {
        if query.is_empty() || query.is_ns() {
            assert(self.steps() + Seq::<StepView>::empty() =~= self.steps());
            return Ok(());
        }
        proof {
            lemma_predecessor_shorter(query@);
        }
        let (p, q) = query.predecessor();
        let before = match p {
            Some(before) => before,
            None => {
                return Ok(());
            },
        };
        match self.process_query(&before) {
            Ok(()) => {},
            Err(e) => {
                return Err(e);
            },
        }
        let ghost planned_before = plan_steps(before@, old(self).registry())->Ok_0;
        match q {
            None => Ok(()),
            Some(QuerySegment::Resource(rqs)) => {
                let r = self.process_resource_query(&rqs);
                assert(old(self).steps() + planned_before + resource_steps(rqs@)
                    =~= old(self).steps() + (planned_before + resource_steps(rqs@)));
                r
            },
            Some(QuerySegment::Transform(tqs)) => {
                if tqs.is_empty() || tqs.is_ns() {
                    return Ok(());
                }
                if tqs.is_action_request() {
                    assert(tqs@.query[0] == tqs.query@[0]@);
                    let r = self.process_action(&before, &tqs.header, &tqs.query[0]);
                    proof {
                        let step = action_step(
                            before@,
                            tqs@.header,
                            tqs@.query[0],
                            old(self).registry(),
                        );
                        if step is Ok {
                            assert((old(self).steps() + planned_before).push(step->Ok_0)
                                =~= old(self).steps() + planned_before.push(step->Ok_0));
                        }
                    }
                    return r;
                }
                if tqs.is_filename() {
                    match &tqs.filename {
                        Some(name) => {
                            let ghost held = steps_view(self.plan.steps@);
                            self.plan.steps.push(Step::Filename(name.clone()));
                            assert(steps_view(self.plan.steps@) =~= held.push(
                                StepView::Filename(name@),
                            ));
                            assert((old(self).steps() + planned_before).push(
                                StepView::Filename(name@),
                            ) =~= old(self).steps() + planned_before.push(
                                StepView::Filename(name@),
                            ));
                        },
                        None => {},
                    }
                    return Ok(());
                }
                Err(Error::not_supported(String::from_str("Unexpected query segment")))
            },
        }
    }
}

/// The first error among the arguments is the outcome however many more
/// arguments are resolved.
pub proof fn lemma_first_error_stays(
    arguments: Seq<ArgumentInfoView>,
    action: ActionRequestView,
    n: int,
    m: int,
)
    requires
        0 <= n <= m,
        resolve_arguments(arguments, action, n) is Err,
    ensures
        resolve_arguments(arguments, action, m) == resolve_arguments(arguments, action, n),
    decreases m - n,
{
    if n < m {
        lemma_first_error_stays(arguments, action, n, m - 1);
    }
}

/// Plans `query` from what `registry` knows of the commands. The plan is a
/// function of the query and the registry.
pub fn make_plan(query: &Query, registry: &CommandMetadataRegistry) -> (r: Result<Plan, Error>)
    ensures
        match r {
            Ok(plan) => planned(query@, registry@) == Ok::<PlanView, ErrorView>(plan@),
            Err(e) => planned(query@, registry@) == Err::<PlanView, ErrorView>(e@),
        },
{
    let mut builder = PlanBuilder::new(query.clone(), registry);
    builder.build()
}

// ---------------------------------------------------------------------------
// What holds of every plan
// ---------------------------------------------------------------------------
/// Whether a step is one that planning gives from `registry`: an action
/// names a command of the registry and has one value for each argument of
/// the command, and each link stands for one of those arguments; no step
/// is a plan or a query of its own.
pub open spec fn step_is_sound(step: StepView, registry: Seq<CommandMetadataView>) -> bool {
    match step {
        StepView::Action { realm, ns, action_name, position, parameters } => exists|i: int|
            0 <= i < registry.len() && (#[trigger] registry[i]).is(realm, ns, action_name)
                && registry[i].arguments.len() == parameters.parameters.len()
                && links_in_range(parameters),
        StepView::Plan(_) => false,
        StepView::Evaluate(_) => false,
        _ => true,
    }
}

/// Whether each link stands for one of the arguments.
pub open spec fn links_in_range(parameters: ResolvedParametersView) -> bool {
    forall|k: int|
        0 <= k < parameters.links.len() ==> (#[trigger] parameters.links[k]).0
            < parameters.parameters.len()
}

/// The command that is found in a registry is a command of the registry,
/// of the realm and name that were asked for.
pub proof fn lemma_found_command(
    registry: Seq<CommandMetadataView>,
    realm: Seq<char>,
    namespaces: Seq<Seq<char>>,
    name: Seq<char>,
    from: int,
)
    requires
        0 <= from,
        find_command_in_namespaces(registry, realm, namespaces, name, from) is Some,
    ensures
        exists|i: int|
            0 <= i < registry.len() && #[trigger] registry[i] == find_command_in_namespaces(
                registry,
                realm,
                namespaces,
                name,
                from,
            )->0 && registry[i].realm == realm && registry[i].name == name,
    decreases namespaces.len() - from,
{
    match crate::command_metadata::find_command(registry, realm, namespaces[from], name) {
        Some(c) => {
            lemma_found_index(registry, realm, namespaces[from], name, registry.len() as int);
            let i = crate::command_metadata::find_command_index(
                registry,
                realm,
                namespaces[from],
                name,
                registry.len() as int,
            )->0;
            assert(registry[i] == c);
        },
        None => {
            lemma_found_command(registry, realm, namespaces, name, from + 1);
        },
    }
}

/// The place at which a command is found holds a command of the key that
/// was asked for.
pub proof fn lemma_found_index(
    registry: Seq<CommandMetadataView>,
    realm: Seq<char>,
    namespace: Seq<char>,
    name: Seq<char>,
    n: int,
)
    requires
        0 <= n <= registry.len(),
        crate::command_metadata::find_command_index(registry, realm, namespace, name, n) is Some,
    ensures
        0 <= crate::command_metadata::find_command_index(registry, realm, namespace, name, n)->0
            < n,
        registry[crate::command_metadata::find_command_index(
            registry,
            realm,
            namespace,
            name,
            n,
        )->0].is(realm, namespace, name),
    decreases n,
{
    if n > 0 {
        if crate::command_metadata::find_command_index(registry, realm, namespace, name, n - 1)
             is Some {
            lemma_found_index(registry, realm, namespace, name, n - 1);
        }
    }
}

/// Resolving `n` arguments gives `n` values, and links within them.
pub proof fn lemma_resolved_count(
    arguments: Seq<ArgumentInfoView>,
    action: ActionRequestView,
    n: int,
)
    requires
        0 <= n,
        resolve_arguments(arguments, action, n) is Ok,
    ensures
        resolve_arguments(arguments, action, n)->Ok_0.parameters.len() == n,
        links_in_range(resolve_arguments(arguments, action, n)->Ok_0),
    decreases n,
{
    if n > 0 {
        lemma_resolved_count(arguments, action, n - 1);
        let before = resolve_arguments(arguments, action, n - 1)->Ok_0;
        let after = resolve_arguments(arguments, action, n)->Ok_0;
        assert forall|k: int| 0 <= k < after.links.len() implies (#[trigger] after.links[k]).0
            < after.parameters.len() by {
            if k < before.links.len() {
                assert(after.links[k] == before.links[k]);
            }
        }
    }
}

/// Every step of a plan is one that planning gives: each action names a
/// command of the registry and has exactly one value for each argument of
/// that command, and the plan holds no plans of its own.
pub proof fn lemma_plan_is_sound(q: QueryView, registry: Seq<CommandMetadataView>)
    requires
        plan_steps(q, registry) is Ok,
    ensures
        forall|i: int|
            0 <= i < plan_steps(q, registry)->Ok_0.len() ==> step_is_sound(
                #[trigger] plan_steps(q, registry)->Ok_0[i],
                registry,
            ),
    decreases q.segments.len(), last_size(q),
{
    if q.is_empty() || q.is_ns() {
    } else {
        lemma_predecessor_shorter(q);
        let (before, last) = q.predecessor();
        lemma_plan_is_sound(before->0, registry);
        let steps = plan_steps(before->0, registry)->Ok_0;
        let all = plan_steps(q, registry)->Ok_0;
        match last {
            None => {},
            Some(QuerySegmentView::Resource(r)) => {
                assert forall|i: int| 0 <= i < all.len() implies step_is_sound(
                    #[trigger] all[i],
                    registry,
                ) by {
                    if i < steps.len() {
                        assert(all[i] == steps[i]);
                    } else {
                        assert(all[i] == resource_steps(r)[i - steps.len()]);
                    }
                }
            },
            Some(QuerySegmentView::Transform(t)) => {
                if t.is_ns() {
                } else if t.is_action_request() {
                    let action = t.query[0];
                    let namespaces = namespaces_after(before->0)->Ok_0;
                    lemma_found_command(registry, realm_of(t.header), namespaces, action.name, 0);
                    let command = find_command_in_namespaces(
                        registry,
                        realm_of(t.header),
                        namespaces,
                        action.name,
                        0,
                    )->0;
                    lemma_resolved_count(command.arguments, action, command.arguments.len() as int);
                    let step = action_step(before->0, t.header, action, registry)->Ok_0;
                    assert(step_is_sound(step, registry));
                    assert forall|i: int| 0 <= i < all.len() implies step_is_sound(
                        #[trigger] all[i],
                        registry,
                    ) by {
                        if i < steps.len() {
                            assert(all[i] == steps[i]);
                        }
                    }
                } else {
                    assert forall|i: int| 0 <= i < all.len() implies step_is_sound(
                        #[trigger] all[i],
                        registry,
                    ) by {
                        if i < steps.len() {
                            assert(all[i] == steps[i]);
                        }
                    }
                }
            },
        }
    }
}

} // verus!
