use crate::stayfocused::{contains_text, context_text, lemma_context_holds_state, views, History};
use vstd::prelude::*;
use vstd::string::StringExecFns;

verus! {

#[verifier::external_type_specification]
#[verifier::external_body]
pub struct ExJsonValue(serde_json::Value);

/// The JSON arguments of a tool invocation, as far as decoding reads them.
pub enum ArgValue {
    Text(String),
    List(Vec<ArgValue>),
    /// The members of an object, in order, each key once.
    Object(Vec<(String, ArgValue)>),
    /// A number, a boolean or null.
    Other,
}

/// The value of the first member named `key`.
pub open spec fn member_of(fields: Seq<(String, ArgValue)>, key: Seq<char>) -> Option<ArgValue>
    decreases fields.len(),
{
    if fields.len() == 0 {
        None
    } else if fields[0].0@ == key {
        Some(fields[0].1)
    } else {
        member_of(fields.drop_first(), key)
    }
}

/// The strings of a list whose items are all strings.
pub open spec fn texts_of(items: Seq<ArgValue>) -> Option<Seq<String>>
    decreases items.len(),
{
    if items.len() == 0 {
        Some(Seq::empty())
    } else {
        match (texts_of(items.drop_last()), items.last()) {
            (Some(done), ArgValue::Text(t)) => Some(done.push(t)),
            _ => None,
        }
    }
}

/// The `task` argument: present when the input is an object whose `task`
/// member is a string.
pub open spec fn task_arg(input: ArgValue) -> Option<String> {
    match input {
        ArgValue::Object(fields) => match member_of(fields@, "task"@) {
            Some(ArgValue::Text(t)) => Some(t),
            _ => None,
        },
        _ => None,
    }
}

/// The `side_quests` argument: present when the input is an object whose
/// `side_quests` member is a list of strings.
pub open spec fn side_quests_arg(input: ArgValue) -> Option<Seq<String>> {
    match input {
        ArgValue::Object(fields) => match member_of(fields@, "side_quests"@) {
            Some(ArgValue::List(items)) => texts_of(items@),
            _ => None,
        },
        _ => None,
    }
}

/// The value of the member named `key`, if the fields have one.
fn find_member<'a>(fields: &'a Vec<(String, ArgValue)>, key: &String) -> (r: Option<&'a ArgValue>)
    ensures
        r is None <==> member_of(fields@, key@) is None,
        r is Some ==> *r->Some_0 == member_of(fields@, key@)->Some_0,
{
    let mut i: usize = 0;
    assert(fields@.subrange(0, fields@.len() as int) =~= fields@);
    while i < fields.len()
        invariant
            i <= fields@.len(),
            member_of(fields@, key@) == member_of(fields@.subrange(i as int, fields@.len() as int), key@),
        decreases fields@.len() - i,
    {
        let ghost rest = fields@.subrange(i as int, fields@.len() as int);
        assert(rest.drop_first() =~= fields@.subrange(i + 1, fields@.len() as int));
        assert(rest[0] == fields@[i as int]);
        if fields[i].0 == *key {
            return Some(&fields[i].1);
        }
        i = i + 1;
    }
    assert(fields@.subrange(i as int, fields@.len() as int).len() == 0);
    None
}

proof fn lemma_texts_stay_absent(items: Seq<ArgValue>, n: int)
    requires
        0 <= n <= items.len(),
        texts_of(items.take(n)) is None,
    ensures
        texts_of(items) is None,
    decreases items.len() - n,
{
    if n == items.len() {
        assert(items.take(n) =~= items);
    } else {
        assert(items.take(n + 1).drop_last() =~= items.take(n));
        lemma_texts_stay_absent(items, n + 1);
    }
}

/// The strings of a list whose items are all strings; none otherwise.
fn texts(items: &Vec<ArgValue>) -> (r: Option<Vec<String>>)
    ensures
        r is None <==> texts_of(items@) is None,
        r is Some ==> r->Some_0@ == texts_of(items@)->Some_0,
{
    let mut out: Vec<String> = Vec::new();
    let mut i: usize = 0;
    while i < items.len()
        invariant
            i <= items@.len(),
            texts_of(items@.take(i as int)) == Some(out@),
        decreases items@.len() - i,
    {
        assert(items@.take(i + 1).drop_last() =~= items@.take(i as int));
        assert(items@.take(i + 1).last() == items@[i as int]);
        match &items[i] {
            ArgValue::Text(t) => {
                out.push(t.clone());
            },
            _ => {
                proof {
                    lemma_texts_stay_absent(items@, i + 1);
                }
                return None;
            },
        }
        i = i + 1;
    }
    assert(items@.take(i as int) =~= items@);
    Some(out)
}

/// What `format!("{:?}", ..)` makes of a list of strings.
pub uninterp spec fn debug_text_of(items: Seq<Seq<char>>) -> Seq<char>;

/// Relies on the `Debug` formatting of `Vec<String>`, which depends on the
/// strings alone.
#[verifier::external_body]
fn debug_list(items: &Vec<String>) -> (r: String)
    ensures
        r@ == debug_text_of(views(items@)),
{
    format!("{:?}", items)
}

/// A tool invocation from the model, with its arguments decoded. A setter
/// whose arguments did not have the expected shape carries `None`.
pub enum ToolInvocation {
    SetPrimaryTask(Option<String>),
    SetSideQuests(Option<Vec<String>>),
    Nop,
    Unknown(String),
}

/// The text fed back to the model for one invocation, and whether it
/// reports an error.
pub struct ToolOutcome {
    pub text: String,
    pub is_error: bool,
}

/// Whether `inv` is what a call of the tool `name` with arguments `input`
/// decodes to: the name selects the kind, and a setter carries its
/// argument when the input has it in the expected shape, `None` otherwise.
pub open spec fn decodes_to(name: Seq<char>, input: ArgValue, inv: ToolInvocation) -> bool {
    if name == "set_primary_task"@ {
        inv == ToolInvocation::SetPrimaryTask(task_arg(input))
    } else if name == "set_side_quests"@ {
        &&& inv is SetSideQuests
        &&& match side_quests_arg(input) {
            Some(qs) => inv->SetSideQuests_0 is Some && inv->SetSideQuests_0->Some_0@ == qs,
            None => inv->SetSideQuests_0 is None,
        }
    } else if name == "nop"@ {
        inv is Nop
    } else {
        inv is Unknown && inv->Unknown_0@ == name
    }
}

/// The focus state after an invocation: only a setter with well-formed
/// arguments changes it, and it replaces the one field it sets.
pub open spec fn applied_state(h: History, inv: ToolInvocation) -> History {
    match inv {
        ToolInvocation::SetPrimaryTask(Some(task)) => History { primary_objective: Some(task), ..h },
        ToolInvocation::SetSideQuests(Some(quests)) => History { side_quests: Some(quests), ..h },
        _ => h,
    }
}

/// The result text of an invocation.
pub open spec fn outcome_text(inv: ToolInvocation) -> Seq<char> {
    match inv {
        ToolInvocation::SetPrimaryTask(Some(task)) => "Primary task set to: "@ + task@,
        ToolInvocation::SetPrimaryTask(None) => "Error: Invalid arguments for set_primary_task"@,
        ToolInvocation::SetSideQuests(Some(quests)) => "Side quests set: "@ + debug_text_of(
            views(quests@),
        ),
        ToolInvocation::SetSideQuests(None) => "Error: Invalid arguments for set_side_quests"@,
        ToolInvocation::Nop => "No change made."@,
        ToolInvocation::Unknown(name) => "Error: Unknown tool '"@ + name@ + "'"@,
    }
}

/// Whether the result of an invocation reports an error.
pub open spec fn outcome_is_error(inv: ToolInvocation) -> bool {
    match inv {
        ToolInvocation::SetPrimaryTask(Some(_)) => false,
        ToolInvocation::SetSideQuests(Some(_)) => false,
        ToolInvocation::Nop => false,
        _ => true,
    }
}

/// Decodes the invocation of the tool `name` with arguments `input`.
pub fn decode_tool_call(name: &String, input: &ArgValue) -> (r: ToolInvocation)
    ensures
        decodes_to(name@, *input, r),
{
    if *name == "set_primary_task".to_owned() {
        let key = "task".to_owned();
        let task = match input {
            ArgValue::Object(fields) => match find_member(fields, &key) {
                Some(ArgValue::Text(t)) => Some(t.clone()),
                _ => None,
            },
            _ => None,
        };
        ToolInvocation::SetPrimaryTask(task)
    } else if *name == "set_side_quests".to_owned() {
        let key = "side_quests".to_owned();
        let quests = match input {
            ArgValue::Object(fields) => match find_member(fields, &key) {
                Some(ArgValue::List(items)) => texts(items),
                _ => None,
            },
            _ => None,
        };
        ToolInvocation::SetSideQuests(quests)
    } else if *name == "nop".to_owned() {
        ToolInvocation::Nop
    } else {
        ToolInvocation::Unknown(name.clone())
    }
}

/// Carries out one invocation against the focus state and returns the
/// result to report back to the model.
pub fn apply_tool_call(inv: ToolInvocation, history: &mut History) -> (r: ToolOutcome)
    ensures
        *final(history) == applied_state(*old(history), inv),
        r.text@ == outcome_text(inv),
        r.is_error == outcome_is_error(inv),
{
    match inv {
        ToolInvocation::SetPrimaryTask(Some(task)) => {
            let mut text = "Primary task set to: ".to_owned();
            text.append(task.as_str());
            history.primary_objective = Some(task);
            ToolOutcome { text, is_error: false }
        },
        ToolInvocation::SetPrimaryTask(None) => ToolOutcome {
            text: "Error: Invalid arguments for set_primary_task".to_owned(),
            is_error: true,
        },
        ToolInvocation::SetSideQuests(Some(quests)) => {
            let mut text = "Side quests set: ".to_owned();
            let listed = debug_list(&quests);
            text.append(listed.as_str());
            history.side_quests = Some(quests);
            ToolOutcome { text, is_error: false }
        },
        ToolInvocation::SetSideQuests(None) => ToolOutcome {
            text: "Error: Invalid arguments for set_side_quests".to_owned(),
            is_error: true,
        },
        ToolInvocation::Nop => ToolOutcome { text: "No change made.".to_owned(), is_error: false },
        ToolInvocation::Unknown(name) => {
            let mut text = "Error: Unknown tool '".to_owned();
            text.append(name.as_str());
            text.append("'");
            ToolOutcome { text, is_error: true }
        },
    }
}

/// Decodes and carries out one invocation: a setter whose argument has
/// the expected shape overwrites its field and confirms the new value;
/// anything else leaves the state as it was.
pub fn process_tool_call(name: &String, input: &ArgValue, history: &mut History) -> (r:
    ToolOutcome)
    ensures
        exists|inv: ToolInvocation|
            decodes_to(name@, *input, inv) && *final(history) == applied_state(*old(history), inv)
                && r.text@ == outcome_text(inv) && r.is_error == outcome_is_error(inv),
        name@ == "set_primary_task"@ && task_arg(*input) is Some ==> {
            &&& *final(history) == (History { primary_objective: task_arg(*input), ..*old(history) })
            &&& r.text@ == "Primary task set to: "@ + task_arg(*input)->Some_0@
            &&& !r.is_error
        },
        name@ == "set_side_quests"@ && side_quests_arg(*input) is Some ==> {
            &&& final(history).side_quests is Some
            &&& final(history).side_quests->Some_0@ == side_quests_arg(*input)->Some_0
            &&& final(history).primary_objective == old(history).primary_objective
            &&& final(history).tail == old(history).tail
            &&& r.text@ == "Side quests set: "@ + debug_text_of(views(side_quests_arg(*input)->Some_0))
            &&& !r.is_error
        },
        name@ == "set_primary_task"@ && task_arg(*input) is None ==> {
            &&& *final(history) == *old(history)
            &&& r.is_error
        },
        name@ == "set_side_quests"@ && side_quests_arg(*input) is None ==> {
            &&& *final(history) == *old(history)
            &&& r.is_error
        },
{
    let inv = decode_tool_call(name, input);
    let ghost chosen = inv;
    let r = apply_tool_call(inv, history);
    proof {
        reveal_strlit("set_primary_task");
        reveal_strlit("set_side_quests");
        assert("set_side_quests"@.len() != "set_primary_task"@.len());
    }
    assert(decodes_to(name@, *input, chosen));
    proof {
        if name@ == "set_side_quests"@ {
            assert(name@ != "set_primary_task"@);
            assert(chosen is SetSideQuests);
        }
    }
    r
}

/// Invoking a tool outside the offered set is reported back as an error
/// that names it, and leaves the focus state as it was.
pub proof fn lemma_unknown_tool_changes_nothing(
    h: History,
    name: Seq<char>,
    input: ArgValue,
    inv: ToolInvocation,
)
    requires
        decodes_to(name, input, inv),
        name != "set_primary_task"@,
        name != "set_side_quests"@,
        name != "nop"@,
    ensures
        applied_state(h, inv) == h,
        outcome_is_error(inv),
        outcome_text(inv) == "Error: Unknown tool '"@ + name + "'"@,
{
}

/// A setter whose arguments did not decode is reported back as an error
/// that names it, and leaves the focus state as it was.
pub proof fn lemma_malformed_arguments_change_nothing(h: History)
    ensures
        applied_state(h, ToolInvocation::SetPrimaryTask(None)) == h,
        outcome_is_error(ToolInvocation::SetPrimaryTask(None)),
        outcome_text(ToolInvocation::SetPrimaryTask(None))
            == "Error: Invalid arguments for set_primary_task"@,
        applied_state(h, ToolInvocation::SetSideQuests(None)) == h,
        outcome_is_error(ToolInvocation::SetSideQuests(None)),
        outcome_text(ToolInvocation::SetSideQuests(None))
            == "Error: Invalid arguments for set_side_quests"@,
{
}

/// After the primary task is set, the rendered context states it; setting
/// it again replaces the earlier value outright.
pub proof fn lemma_primary_task_replaced(h: History, first: String, second: String)
    ensures
        contains_text(
            context_text(applied_state(h, ToolInvocation::SetPrimaryTask(Some(first)))),
            first@,
        ),
        applied_state(
            applied_state(h, ToolInvocation::SetPrimaryTask(Some(first))),
            ToolInvocation::SetPrimaryTask(Some(second)),
        ).primary_objective == Some(second),
{
    lemma_context_holds_state(applied_state(h, ToolInvocation::SetPrimaryTask(Some(first))));
}

/// Setting the side quests replaces the list outright: setting an empty
/// list leaves an empty list, not an absent one.
pub proof fn lemma_side_quests_replaced(h: History, first: Vec<String>, second: Vec<String>)
    ensures
        applied_state(
            applied_state(h, ToolInvocation::SetSideQuests(Some(first))),
            ToolInvocation::SetSideQuests(Some(second)),
        ).side_quests == Some(second),
{
}

} // verus!
