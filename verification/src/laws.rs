//! Laws that hold across modules: the round trips of queries and keys,
//! stated of what `parse_query` and `parse_key` return, and the reading
//! and the plan of a query that is one action.
use crate::command_metadata::{CommandMetadataView, find_command_in_namespaces};
use crate::error::ErrorView;
use crate::parse::{
    CharClass, identifier_end, parse_action, parse_key_result, parse_parameters,
    parse_plain_transform, parse_query_at, parse_query_text, parse_result, parse_steps,
    position_at,
};
use crate::plan::{
    PlanView, ResolvedParametersView, StepView, action_step, fallback_namespaces,
    namespaces_after, plan_steps, planned, resolve_arguments,
};
use crate::query::{
    ActionParameterView, ActionRequestView, QuerySegmentView, QueryView, ResourceNameView,
    TransformQuerySegmentView, encode_key, encode_query, escape_char, escape_from, file_text,
    http_text, https_text, is_plain, name_texts, ns_name, protocol_text,
};
use crate::text::has_at;
use crate::roundtrip::{
    bare_query, is_identifier, lemma_key_roundtrip, lemma_parse_encode_parse, lemma_run_exact,
    wf_key,
};
use vstd::prelude::*;

verus! {

/// For every text that `parse_query` reads as a query, it reads the text
/// of that query as the same query, but for positions. The text of the
/// query must be short enough for its places to be numbered, which is a
/// limit of the machine.
pub proof fn lemma_query_read_back(s: Seq<char>)
    requires
        parse_result(s) is Ok,
        encode_query(parse_result(s)->Ok_0).len() < usize::MAX,
    ensures
        parse_result(encode_query(parse_result(s)->Ok_0)) is Ok,
        bare_query(parse_result(encode_query(parse_result(s)->Ok_0))->Ok_0) == bare_query(
            parse_result(s)->Ok_0,
        ),
{
    lemma_parse_encode_parse(s);
}

/// For every key of names of resources, `parse_key` reads the text of the
/// key as a key of the same names. The text must be short enough for its
/// places to be numbered, which is a limit of the machine.
pub proof fn lemma_key_read_back(key: Seq<ResourceNameView>)
    requires
        wf_key(key),
        encode_key(key).len() < usize::MAX,
    ensures
        parse_key_result(encode_key(key)) is Ok,
        name_texts(parse_key_result(encode_key(key))->Ok_0) == name_texts(key),
{
    lemma_key_roundtrip(key);
}

/// The query that is one action without parameters, read from the
/// beginning of a text.
pub open spec fn lone_action(name: Seq<char>) -> QueryView {
    QueryView {
        segments: seq![
            QuerySegmentView::Transform(
                TransformQuerySegmentView {
                    header: None,
                    query: seq![
                        ActionRequestView {
                            name,
                            parameters: Seq::empty(),
                            position: position_at(0),
                        },
                    ],
                    filename: None,
                },
            ),
        ],
        absolute: false,
    }
}

/// A text that is one identifier is read as the query of one action of
/// that name, without parameters.
pub proof fn lemma_name_is_query(s: Seq<char>)
    requires
        is_identifier(s),
    ensures
        parse_query_text(s) == Some(lone_action(s)),
        s.len() < usize::MAX ==> parse_result(s) == Ok::<QueryView, ErrorView>(lone_action(s)),
{
    let n = s.len() as int;
    lemma_run_exact(s, 1, n, CharClass::Word);
    assert(identifier_end(s, 0) == Some(n));
    assert(parse_parameters(s, n) == Some((Seq::<ActionParameterView>::empty(), n)));
    assert(s.subrange(0, n) =~= s);
    let action = ActionRequestView { name: s, parameters: Seq::empty(), position: position_at(0) };
    assert(parse_action(s, 0) == Some((action, n)));
    assert(parse_steps(s, 0) == Some((seq![action], None::<ResourceNameView>, n)));
    assert(parse_plain_transform(s, 0, false) == Some((lone_action(s), n)));
    assert(s[0] != '/');
    assert(parse_query_at(s, 0, false) == Some((lone_action(s), n)));
}

/// The plan of one action without parameters, of a command that takes no
/// arguments and is found in the root namespaces: the one step that calls
/// the command.
pub proof fn lemma_plan_of_lone_action(
    name: Seq<char>,
    registry: Seq<CommandMetadataView>,
    command: CommandMetadataView,
)
    requires
        name != ns_name(),
        find_command_in_namespaces(registry, Seq::empty(), fallback_namespaces(), name, 0) == Some(
            command,
        ),
        command.arguments.len() == 0,
    ensures
        planned(lone_action(name), registry) == Ok::<PlanView, ErrorView>(
            PlanView {
                query: lone_action(name),
                steps: seq![
                    StepView::Action {
                        realm: command.realm,
                        ns: command.namespace,
                        action_name: name,
                        position: position_at(0),
                        parameters: ResolvedParametersView::empty(),
                    },
                ],
            },
        ),
{
    let q = lone_action(name);
    let t = q.segments[0]->Transform_0;
    let action = t.query[0];
    assert(q.segments.last() == q.segments[0]);
    assert(!q.is_empty());
    assert(q.transform_query() == Some(t));
    assert(!q.is_ns());
    let (p, r) = t.predecessor();
    assert(t.query.drop_last() =~= Seq::<ActionRequestView>::empty());
    let before = QueryView { segments: Seq::empty(), absolute: false };
    assert(q.segments.drop_last() =~= Seq::<QuerySegmentView>::empty());
    assert(q.predecessor().0 == Some(before));
    assert(q.predecessor().1 is Some);
    let last = q.predecessor().1->0->Transform_0;
    assert(last.query =~= seq![action]);
    assert(last.header is None && last.filename is None);
    assert(last.is_action_request() && !last.is_ns());
    assert(plan_steps(before, registry) == Ok::<Seq<StepView>, ErrorView>(Seq::empty()));
    assert(namespaces_after(before) == Ok::<Seq<Seq<char>>, ErrorView>(fallback_namespaces()));
    assert(resolve_arguments(command.arguments, action, 0) == Ok::<
        ResolvedParametersView,
        ErrorView,
    >(ResolvedParametersView::empty()));
    let step = StepView::Action {
        realm: command.realm,
        ns: command.namespace,
        action_name: name,
        position: position_at(0),
        parameters: ResolvedParametersView::empty(),
    };
    assert(action_step(before, last.header, last.query[0], registry) == Ok::<StepView, ErrorView>(
        step,
    ));
    assert(Seq::<StepView>::empty().push(step) =~= seq![step]);
    assert(plan_steps(q, registry) == Ok::<Seq<StepView>, ErrorView>(seq![step]));
}

/// A text of letters, digits, `_`, `+` and `.` stands in a query as it
/// is: nothing in it is escaped.
pub proof fn lemma_plain_stays(s: Seq<char>, i: int)
    requires
        0 <= i <= s.len(),
        forall|j: int| 0 <= j < s.len() ==> is_plain(#[trigger] s[j]),
    ensures
        escape_from(s, i) == s.subrange(i, s.len() as int),
    decreases s.len() - i,
{
    if i < s.len() {
        lemma_plain_stays(s, i + 1);
        assert(is_plain(s[i]));
        assert(!has_at(s, i, https_text())) by {
            if has_at(s, i, https_text()) {
                assert(s.subrange(i, i + 8)[4] == https_text()[4]);
                assert(is_plain(s[i + 4]));
            }
        }
        assert(!has_at(s, i, http_text())) by {
            if has_at(s, i, http_text()) {
                assert(s.subrange(i, i + 7)[4] == http_text()[4]);
                assert(is_plain(s[i + 4]));
            }
        }
        assert(!has_at(s, i, file_text())) by {
            if has_at(s, i, file_text()) {
                assert(s.subrange(i, i + 7)[4] == file_text()[4]);
                assert(is_plain(s[i + 4]));
            }
        }
        assert(!has_at(s, i, protocol_text())) by {
            if has_at(s, i, protocol_text()) {
                assert(s.subrange(i, i + 3)[0] == protocol_text()[0]);
            }
        }
        assert(escape_char(s[i]) == seq![s[i]]);
        assert(seq![s[i]] + s.subrange(i + 1, s.len() as int) =~= s.subrange(i, s.len() as int));
    } else {
        assert(s.subrange(i, s.len() as int) =~= Seq::<char>::empty());
    }
}

} // verus!
