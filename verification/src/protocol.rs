//! The requests and the responses of Bazel's JSON worker protocol.

use vstd::prelude::*;

use crate::framing::ReadError;
use crate::json::{find_member, parse_json, quote, Json};
use crate::key::push_bytes;
use crate::text::{decimal_text, push_text};
#[allow(unused_imports)]
use crate::json::{error_head, items_model, lemma_items, parsed, quoted, JsonModel};
#[allow(unused_imports)]
use crate::text::{decimal, pairs, texts};
#[allow(unused_imports)]
use vstd::string::*;
#[allow(unused_imports)]
use vstd::utf8::*;

verus! {

/// One request to the worker.
#[derive(Debug)]
pub struct WorkRequest {
    /// The rustc arguments, and the wrapper flags among them.
    pub arguments: Vec<String>,
    /// The path and the digest of every input.
    pub inputs: Vec<(String, String)>,
    pub request_id: i64,
    pub cancel: bool,
    /// Above zero where the worker is to log what it does.
    pub verbosity: i64,
}

/// What a request says.
#[verifier::ext_equal]
pub struct RequestModel {
    pub arguments: Seq<Seq<char>>,
    pub inputs: Seq<(Seq<char>, Seq<char>)>,
    pub request_id: i64,
    pub cancel: bool,
    pub verbosity: i64,
}

impl View for WorkRequest {
    type V = RequestModel;

    open spec fn view(&self) -> RequestModel {
        RequestModel {
            arguments: texts(self.arguments@),
            inputs: pairs(self.inputs@),
            request_id: self.request_id,
            cancel: self.cancel,
            verbosity: self.verbosity,
        }
    }
}

/// The member of an object under a name.
pub open spec fn member(object: Map<Seq<char>, JsonModel>, name: Seq<char>) -> Option<JsonModel> {
    if object.dom().contains(name) {
        Some(object[name])
    } else {
        None
    }
}

/// The items of a member that is an array; none where it is missing or something else.
pub open spec fn items_of(json: Option<JsonModel>) -> Seq<JsonModel> {
    match json {
        Some(JsonModel::Array(items)) => items,
        _ => Seq::empty(),
    }
}

/// A member that is a number; zero where it is missing or something else.
pub open spec fn number_of(json: Option<JsonModel>) -> i64 {
    match json {
        Some(JsonModel::Number(n)) => n,
        _ => 0,
    }
}

/// The arguments, all of which must be strings.
pub open spec fn arguments_of(items: Seq<JsonModel>) -> Result<Seq<Seq<char>>, Seq<char>> {
    if forall|i: int| 0 <= i < items.len() ==> #[trigger] items[i] is String {
        Ok(items.map_values(|item: JsonModel| item->String_0))
    } else {
        Err("argument is not a string"@)
    }
}

/// One input: an object with a path. A digest that is missing is empty.
pub open spec fn input_of(item: JsonModel) -> Result<(Seq<char>, Seq<char>), Seq<char>> {
    match item {
        JsonModel::Object(object) => match member(object, "path"@) {
            Some(JsonModel::String(path)) => match member(object, "digest"@) {
                Some(JsonModel::String(digest)) => Ok((path, digest)),
                _ => Ok((path, Seq::empty())),
            },
            _ => Err("input.path missing"@),
        },
        _ => Err("input is not an object"@),
    }
}

/// The inputs in order, or the error of the first that is none.
pub open spec fn inputs_of(items: Seq<JsonModel>) -> Result<
    Seq<(Seq<char>, Seq<char>)>,
    Seq<char>,
>
    decreases items.len(),
{
    if items.len() == 0 {
        Ok(Seq::empty())
    } else {
        match inputs_of(items.drop_last()) {
            Err(e) => Err(e),
            Ok(inputs) => match input_of(items.last()) {
                Err(e) => Err(e),
                Ok(input) => Ok(inputs.push(input)),
            },
        }
    }
}

/// The request that a JSON value is, or why it is none. Arguments are looked at before
/// inputs.
pub open spec fn work_request_of(json: JsonModel) -> Result<RequestModel, Seq<char>> {
    match json {
        JsonModel::Object(object) => match arguments_of(items_of(member(object, "arguments"@))) {
            Err(e) => Err(e),
            Ok(arguments) => match inputs_of(items_of(member(object, "inputs"@))) {
                Err(e) => Err(e),
                Ok(inputs) => Ok(
                    RequestModel {
                        arguments,
                        inputs,
                        request_id: number_of(member(object, "requestId"@)),
                        cancel: member(object, "cancel"@) == Some(JsonModel::Boolean(true)),
                        verbosity: number_of(member(object, "verbosity"@)),
                    },
                ),
            },
        },
        _ => Err("WorkRequest is not a JSON object"@),
    }
}

/// What was parsed, without regard to how it is held.
pub open spec fn request_view(r: Result<WorkRequest, String>) -> Result<RequestModel, Seq<char>> {
    match r {
        Ok(req) => Ok(req@),
        Err(e) => Err(e@),
    }
}

/// The items of a member that is an array.
fn member_items<'a>(members: &'a Vec<(String, Json)>, name: &str) -> (r: Option<&'a Vec<Json>>)
    ensures
        match r {
            Some(items) => items_of(member(crate::json::members_model(members@), name@))
                == items_model(items@),
            None => items_of(member(crate::json::members_model(members@), name@)).len() == 0,
        },
{
    match find_member(members, name) {
        Some(Json::Array(items)) => Some(items),
        _ => None,
    }
}

/// A member that is a number, or zero.
fn member_number(members: &Vec<(String, Json)>, name: &str) -> (r: i64)
    ensures
        r == number_of(member(crate::json::members_model(members@), name@)),
{
    match find_member(members, name) {
        Some(Json::Number(n)) => *n,
        _ => 0,
    }
}

/// The arguments of a request.
fn parse_arguments(items: &Vec<Json>) -> (r: Result<Vec<String>, String>)
    ensures
        match r {
            Ok(v) => arguments_of(items_model(items@)) == Ok::<_, Seq<char>>(texts(v@)),
            Err(e) => arguments_of(items_model(items@)) == Err::<Seq<Seq<char>>, _>(e@),
        },
{
    let mut arguments: Vec<String> = Vec::new();
    let mut i: usize = 0;
    let ghost model = items_model(items@);
    proof {
        lemma_items(items@);
    }
    while i < items.len()
        invariant
            i <= items@.len(),
            model == items_model(items@),
            model.len() == items@.len(),
            forall|j: int| 0 <= j < items@.len() ==> model[j] == #[trigger] items@[j].model(),
            arguments@.len() == i,
            forall|j: int| 0 <= j < i ==> #[trigger] model[j] is String && arguments@[j]@
                == model[j]->String_0,
        decreases items@.len() - i,
    {
        assert(model[i as int] == items@[i as int].model());
        match &items[i] {
            Json::String(s) => {
                arguments.push(s.clone());
            },
            _ => {
                assert(!(model[i as int] is String));
                return Err("argument is not a string".to_owned());
            },
        }
        i = i + 1;
    }
    assert(texts(arguments@) =~= model.map_values(|item: JsonModel| item->String_0));
    Ok(arguments)
}

/// One input of a request.
fn parse_input(item: &Json) -> (r: Result<(String, String), String>)
    ensures
        match r {
            Ok(p) => input_of(item.model()) == Ok::<_, Seq<char>>((p.0@, p.1@)),
            Err(e) => input_of(item.model()) == Err::<(Seq<char>, Seq<char>), _>(e@),
        },
{
    match item {
        Json::Object(members) => {
            let path = match find_member(members, "path") {
                Some(Json::String(s)) => s.clone(),
                _ => return Err("input.path missing".to_owned()),
            };
            let digest = match find_member(members, "digest") {
                Some(Json::String(s)) => s.clone(),
                _ => String::new(),
            };
            Ok((path, digest))
        },
        _ => Err("input is not an object".to_owned()),
    }
}

/// An error among the first inputs is the error of all of them.
proof fn lemma_inputs_error(items: Seq<JsonModel>, n: int)
    requires
        0 <= n <= items.len(),
        inputs_of(items.take(n)) is Err,
    ensures
        inputs_of(items) == inputs_of(items.take(n)),
    decreases items.len() - n,
{
    if n < items.len() {
        assert(items.take(n + 1).drop_last() =~= items.take(n));
        lemma_inputs_error(items, n + 1);
    } else {
        assert(items.take(n) =~= items);
    }
}

/// The inputs of a request.
fn parse_inputs(items: &Vec<Json>) -> (r: Result<Vec<(String, String)>, String>)
    ensures
        match r {
            Ok(v) => inputs_of(items_model(items@)) == Ok::<_, Seq<char>>(pairs(v@)),
            Err(e) => inputs_of(items_model(items@)) == Err::<Seq<(Seq<char>, Seq<char>)>, _>(e@),
        },
{
    let mut inputs: Vec<(String, String)> = Vec::new();
    let mut i: usize = 0;
    let ghost model = items_model(items@);
    proof {
        lemma_items(items@);
        assert(pairs(inputs@) =~= Seq::empty());
        assert(model.take(0) =~= Seq::empty());
    }
    while i < items.len()
        invariant
            i <= items@.len(),
            model == items_model(items@),
            model.len() == items@.len(),
            forall|j: int| 0 <= j < items@.len() ==> model[j] == #[trigger] items@[j].model(),
            inputs_of(model.take(i as int)) == Ok::<_, Seq<char>>(pairs(inputs@)),
        decreases items@.len() - i,
    {
        assert(model[i as int] == items@[i as int].model());
        assert(model.take(i + 1).drop_last() =~= model.take(i as int));
        let ghost before = pairs(inputs@);
        match parse_input(&items[i]) {
            Ok(input) => {
                inputs.push(input);
                assert(pairs(inputs@) =~= before.push((input.0@, input.1@)));
            },
            Err(e) => {
                proof {
                    lemma_inputs_error(model, i + 1);
                }
                return Err(e);
            },
        }
        i = i + 1;
    }
    assert(model.take(i as int) =~= model);
    Ok(inputs)
}

/// Reads a request out of a JSON value.
pub fn parse_work_request(json: &Json) -> (r: Result<WorkRequest, String>)
    ensures
        request_view(r) == work_request_of(json.model()),
{
    let members = match json {
        Json::Object(members) => members,
        _ => return Err("WorkRequest is not a JSON object".to_owned()),
    };
    let arguments = match member_items(members, "arguments") {
        Some(items) => match parse_arguments(items) {
            Ok(arguments) => arguments,
            Err(e) => return Err(e),
        },
        None => Vec::new(),
    };
    let inputs = match member_items(members, "inputs") {
        Some(items) => match parse_inputs(items) {
            Ok(inputs) => inputs,
            Err(e) => return Err(e),
        },
        None => Vec::new(),
    };
    proof {
        let object = crate::json::members_model(members@);
        let arguments_model = items_of(member(object, "arguments"@));
        let inputs_model = items_of(member(object, "inputs"@));
        if arguments_model.len() == 0 {
            assert(texts(arguments@) =~= arguments_model.map_values(
                |item: JsonModel| item->String_0,
            ));
        }
        if inputs_model.len() == 0 {
            assert(pairs(inputs@) =~= Seq::empty());
        }
        assert(arguments_of(arguments_model) == Ok::<_, Seq<char>>(texts(arguments@)));
        assert(inputs_of(inputs_model) == Ok::<_, Seq<char>>(pairs(inputs@)));
    }
    let request_id = member_number(members, "requestId");
    let cancel = match find_member(members, "cancel") {
        Some(Json::Boolean(b)) => *b,
        _ => false,
    };
    let verbosity = member_number(members, "verbosity");
    Ok(WorkRequest { arguments, inputs, request_id, cancel, verbosity })
}

impl WorkRequest {
    /// Whether the worker is to log what it does for this request.
    pub fn is_verbose(&self) -> (r: bool)
        ensures
            r == (self@.verbosity > 0),
    {
        self.verbosity > 0
    }
}

/// Why a frame was passed over.
#[derive(Debug)]
pub enum Refusal {
    /// Its text is not one JSON value.
    NotJson(String),
    /// The JSON value is not a request.
    BadRequest(String),
}

/// What the worker does after one read from its input.
#[derive(Debug)]
pub enum RunStep {
    /// The input has ended: wait for the requests under way, and stop.
    Stop,
    /// The input is broken: give up.
    Fail(ReadError),
    /// Say why, and read on.
    Skip(Refusal),
    /// Handle this request, and read on meanwhile.
    Handle(WorkRequest),
}

/// What follows from one read of a frame. A frame that is no request does not stop the
/// worker; the end of the input and an input that cannot be framed do.
pub fn run_step(read: Result<Option<String>, ReadError>) -> (r: RunStep)
    ensures
        match read {
            Err(e) => r == RunStep::Fail(e),
            Ok(None) => r is Stop,
            Ok(Some(text)) => match parsed(text@) {
                Err(place) => r matches RunStep::Skip(Refusal::NotJson(e)) && error_head(
                    place,
                ).is_prefix_of(e@),
                Ok(json) => match work_request_of(json) {
                    Err(why) => r matches RunStep::Skip(Refusal::BadRequest(e)) && e@ == why,
                    Ok(request) => r matches RunStep::Handle(req) && req@ == request,
                },
            },
        },
{
    match read {
        Err(e) => RunStep::Fail(e),
        Ok(None) => RunStep::Stop,
        Ok(Some(text)) => match parse_json(text.as_str()) {
            Err(e) => RunStep::Skip(Refusal::NotJson(e)),
            Ok(json) => match parse_work_request(&json) {
                Err(e) => RunStep::Skip(Refusal::BadRequest(e)),
                Ok(req) => RunStep::Handle(req),
            },
        },
    }
}

/// The JSON object of a response.
pub open spec fn response_object(request_id: i64, exit_code: i32, output: Seq<char>) -> Seq<char> {
    "{\"requestId\":"@ + decimal(request_id as int) + ",\"exitCode\":"@ + decimal(exit_code as int)
        + ",\"output\":"@ + quoted(output) + "}"@
}

/// The bytes of the response to a request: one JSON object on a line of its own. Both
/// numbers are written as integers.
pub fn write_response(request_id: i64, exit_code: i32, output: &str) -> (r: Vec<u8>)
    ensures
        r@ == encode_utf8(response_object(request_id, exit_code, output@)).push(0x0a),
{
    let mut text = String::new();
    push_text(&mut text, "{\"requestId\":");
    push_text(&mut text, decimal_text(request_id).as_str());
    push_text(&mut text, ",\"exitCode\":");
    push_text(&mut text, decimal_text(exit_code as i64).as_str());
    push_text(&mut text, ",\"output\":");
    push_text(&mut text, quote(output).as_str());
    push_text(&mut text, "}");
    assert(text@ =~= response_object(request_id, exit_code, output@));
    let mut buf: Vec<u8> = Vec::new();
    push_bytes(&mut buf, text.as_str().as_bytes());
    buf.push(0x0a);
    assert(buf@ =~= encode_utf8(text@).push(0x0a));
    buf
}

/// Members that the protocol does not name are passed over: two objects that agree on the
/// five that it names are the same request, or are refused alike.
pub proof fn law_unknown_members_do_not_count(
    a: Map<Seq<char>, JsonModel>,
    b: Map<Seq<char>, JsonModel>,
)
    requires
        member(a, "arguments"@) == member(b, "arguments"@),
        member(a, "inputs"@) == member(b, "inputs"@),
        member(a, "requestId"@) == member(b, "requestId"@),
        member(a, "cancel"@) == member(b, "cancel"@),
        member(a, "verbosity"@) == member(b, "verbosity"@),
    ensures
        work_request_of(JsonModel::Object(a)) == work_request_of(JsonModel::Object(b)),
{
}

/// The items of the array that a member holds, and none where it holds anything else or is
/// not there.
pub open spec fn listed(object: Map<Seq<char>, JsonModel>, name: Seq<char>) -> Seq<JsonModel> {
    if object.dom().contains(name) && object[name] is Array {
        object[name]->Array_0
    } else {
        Seq::empty()
    }
}

/// An input that says which file it is.
pub open spec fn names_a_path(item: JsonModel) -> bool {
    &&& item is Object
    &&& item->Object_0.dom().contains("path"@)
    &&& item->Object_0["path"@] is String
}

proof fn lemma_inputs(items: Seq<JsonModel>)
    requires
        forall|i: int| 0 <= i < items.len() ==> names_a_path(#[trigger] items[i]),
    ensures
        inputs_of(items) is Ok,
        inputs_of(items)->Ok_0.len() == items.len(),
        forall|i: int|
            0 <= i < items.len() ==> {
                let input = #[trigger] inputs_of(items)->Ok_0[i];
                let object = items[i]->Object_0;
                &&& object["path"@] == JsonModel::String(input.0)
                &&& object.dom().contains("digest"@) && object["digest"@] is String
                    ==> object["digest"@] == JsonModel::String(input.1)
                &&& !(object.dom().contains("digest"@) && object["digest"@] is String)
                    ==> input.1.len() == 0
            },
    decreases items.len(),
{
    if items.len() > 0 {
        let rest = items.drop_last();
        assert forall|i: int| 0 <= i < rest.len() implies names_a_path(#[trigger] rest[i]) by {
            assert(rest[i] == items[i]);
        }
        lemma_inputs(rest);
        assert(names_a_path(items[items.len() - 1]));
        assert forall|i: int| 0 <= i < items.len() implies {
            let input = #[trigger] inputs_of(items)->Ok_0[i];
            let object = items[i]->Object_0;
            &&& object["path"@] == JsonModel::String(input.0)
            &&& object.dom().contains("digest"@) && object["digest"@] is String
                ==> object["digest"@] == JsonModel::String(input.1)
            &&& !(object.dom().contains("digest"@) && object["digest"@] is String)
                ==> input.1.len() == 0
        } by {
            if i < rest.len() {
                assert(inputs_of(items)->Ok_0[i] == inputs_of(rest)->Ok_0[i]);
                assert(rest[i] == items[i]);
            }
        }
    }
}

/// An object is a request where all its arguments are strings and all its inputs say which
/// file they are, and each member of it then says what its value says: the arguments in
/// order, the inputs in order, and the numbers and the truth value, with zero and false for
/// what is missing or of another kind.
pub proof fn law_request_says_what_its_members_say(object: Map<Seq<char>, JsonModel>)
    requires
        forall|i: int|
            0 <= i < listed(object, "arguments"@).len() ==> #[trigger] listed(
                object,
                "arguments"@,
            )[i] is String,
        forall|i: int|
            0 <= i < listed(object, "inputs"@).len() ==> names_a_path(
                #[trigger] listed(object, "inputs"@)[i],
            ),
    ensures
        work_request_of(JsonModel::Object(object)) is Ok,
        ({
            let request = work_request_of(JsonModel::Object(object))->Ok_0;
            let arguments = listed(object, "arguments"@);
            let inputs = listed(object, "inputs"@);
            let id = object["requestId"@];
            let cancel = object["cancel"@];
            let verbosity = object["verbosity"@];
            &&& request.arguments.len() == arguments.len()
            &&& forall|i: int|
                0 <= i < arguments.len() ==> arguments[i] == JsonModel::String(
                    #[trigger] request.arguments[i],
                )
            &&& request.inputs.len() == inputs.len()
            &&& forall|i: int|
                0 <= i < inputs.len() ==> {
                    let input = #[trigger] request.inputs[i];
                    let file = inputs[i]->Object_0;
                    &&& file["path"@] == JsonModel::String(input.0)
                    &&& file.dom().contains("digest"@) && file["digest"@] is String
                        ==> file["digest"@] == JsonModel::String(input.1)
                    &&& !(file.dom().contains("digest"@) && file["digest"@] is String)
                        ==> input.1.len() == 0
                }
            &&& object.dom().contains("requestId"@) && id is Number ==> id == JsonModel::Number(
                request.request_id,
            )
            &&& !(object.dom().contains("requestId"@) && id is Number) ==> request.request_id == 0
            &&& object.dom().contains("cancel"@) && cancel is Boolean
                ==> cancel == JsonModel::Boolean(request.cancel)
            &&& !(object.dom().contains("cancel"@) && cancel is Boolean) ==> !request.cancel
            &&& object.dom().contains("verbosity"@) && verbosity is Number
                ==> verbosity == JsonModel::Number(request.verbosity)
            &&& !(object.dom().contains("verbosity"@) && verbosity is Number)
                ==> request.verbosity == 0
        }),
{
    let arguments = listed(object, "arguments"@);
    assert(arguments =~= items_of(member(object, "arguments"@)));
    assert(listed(object, "inputs"@) =~= items_of(member(object, "inputs"@)));
    lemma_inputs(listed(object, "inputs"@));
    let request = work_request_of(JsonModel::Object(object))->Ok_0;
    assert forall|i: int| 0 <= i < arguments.len() implies arguments[i] == JsonModel::String(
        #[trigger] request.arguments[i],
    ) by {
        assert(arguments[i] is String);
    }
}

/// What is not a request is refused for the first thing that is wrong with it: that it is no
/// object; that one of its arguments is no string; or, where the arguments are in order, what
/// is wrong with the first input that does not say which file it is, the `k`-th.
pub proof fn law_refusal_says_what_is_wrong(json: JsonModel, k: int)
    ensures
        !(json is Object) ==> work_request_of(json) == Err::<RequestModel, Seq<char>>(
            "WorkRequest is not a JSON object"@,
        ),
        json matches JsonModel::Object(object) ==> {
            let arguments = listed(object, "arguments"@);
            let inputs = listed(object, "inputs"@);
            &&& 0 <= k < arguments.len() && !(arguments[k] is String) ==> work_request_of(json)
                == Err::<RequestModel, Seq<char>>("argument is not a string"@)
            &&& {
                &&& forall|i: int| 0 <= i < arguments.len() ==> #[trigger] arguments[i] is String
                &&& 0 <= k < inputs.len()
                &&& forall|i: int| 0 <= i < k ==> names_a_path(#[trigger] inputs[i])
                &&& !names_a_path(inputs[k])
            } ==> work_request_of(json) == Err::<RequestModel, Seq<char>>(
                if inputs[k] is Object {
                    "input.path missing"@
                } else {
                    "input is not an object"@
                },
            )
        },
{
    if let JsonModel::Object(object) = json {
        let arguments = listed(object, "arguments"@);
        let inputs = listed(object, "inputs"@);
        assert(arguments =~= items_of(member(object, "arguments"@)));
        assert(inputs =~= items_of(member(object, "inputs"@)));
        if {
            &&& 0 <= k < inputs.len()
            &&& forall|i: int| 0 <= i < k ==> names_a_path(#[trigger] inputs[i])
            &&& !names_a_path(inputs[k])
        } {
            let good = inputs.take(k);
            assert forall|i: int| 0 <= i < good.len() implies names_a_path(#[trigger] good[i]) by {
                assert(good[i] == inputs[i]);
            }
            lemma_inputs(good);
            assert(inputs.take(k + 1).drop_last() =~= good);
            lemma_inputs_error(inputs, k + 1);
        }
    }
}

/// A request and a refusal are seen as they are.
pub proof fn law_request_is_seen_whole(r: Result<WorkRequest, String>)
    ensures
        r matches Err(e) ==> request_view(r) == Err::<RequestModel, Seq<char>>(e@),
        r matches Ok(request) ==> {
            let seen = request_view(r)->Ok_0;
            &&& request_view(r) is Ok
            &&& seen.arguments == texts(request.arguments@)
            &&& seen.inputs == pairs(request.inputs@)
            &&& seen.request_id == request.request_id
            &&& seen.cancel == request.cancel
            &&& seen.verbosity == request.verbosity
        },
{
}

} // verus!
