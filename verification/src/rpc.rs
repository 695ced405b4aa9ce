//! The message model of the RPC layer and its wire codec.
//!
//! A message is a request, a response or a notification; the wire carries one
//! message per line as a JSON object. A request holds an id and a method; a
//! response holds an id and an optional result or error; a notification holds
//! a method and no id — the absence of an id is what tells it from a request.

use vstd::prelude::*;
use crate::json::Json;
use crate::json::JsonV;
use crate::json::json_view;
use crate::json::obj_view;
use crate::json::jtext;
use crate::json::to_text;
use crate::json::from_text;
use crate::json::wf_json;
use crate::json::lemma_json_view_wf;
use crate::json::str_eq;
use crate::json::json_clone;
use crate::json::lemma_obj_view_index;

verus! {

/// The correlation key of a request: an integer or a string. It is compared,
/// never interpreted.
#[derive(Debug, PartialEq)]
pub enum RequestId {
    Int(i64),
    Str(String),
}

pub enum RequestIdV {
    Int(int),
    Str(Seq<char>),
}

impl View for RequestId {
    type V = RequestIdV;

    open spec fn view(&self) -> RequestIdV {
        match self {
            RequestId::Int(n) => RequestIdV::Int(*n as int),
            RequestId::Str(s) => RequestIdV::Str(s@),
        }
    }
}

/// An RPC-level failure reported by the peer.
#[derive(Debug, PartialEq)]
pub struct Error {
    pub code: i64,
    pub message: String,
    pub data: Option<Json>,
}

pub struct ErrorV {
    pub code: int,
    pub message: Seq<char>,
    pub data: Option<JsonV>,
}

pub open spec fn opt_view(o: Option<Json>) -> Option<JsonV> {
    match o {
        Some(j) => Some(json_view(j)),
        None => None,
    }
}

impl View for Error {
    type V = ErrorV;

    open spec fn view(&self) -> ErrorV {
        ErrorV { code: self.code as int, message: self.message@, data: opt_view(self.data) }
    }
}

/// One wire message.
#[derive(Debug, PartialEq)]
pub enum Message {
    Request { id: RequestId, method: String, params: Option<Json> },
    Response { id: RequestId, result: Option<Json>, error: Option<Error> },
    Notification { method: String, params: Option<Json> },
}

pub enum MessageV {
    Request { id: RequestIdV, method: Seq<char>, params: Option<JsonV> },
    Response { id: RequestIdV, result: Option<JsonV>, error: Option<ErrorV> },
    Notification { method: Seq<char>, params: Option<JsonV> },
}

impl View for Message {
    type V = MessageV;

    open spec fn view(&self) -> MessageV {
        match self {
            Message::Request { id, method, params } => MessageV::Request {
                id: id@,
                method: method@,
                params: opt_view(*params),
            },
            Message::Response { id, result, error } => MessageV::Response {
                id: id@,
                result: opt_view(*result),
                error: match error {
                    Some(e) => Some(e@),
                    None => None,
                },
            },
            Message::Notification { method, params } => MessageV::Notification {
                method: method@,
                params: opt_view(*params),
            },
        }
    }
}

/// A response, as delivered to the code awaiting it.
#[derive(Debug, PartialEq)]
pub struct Response {
    pub id: RequestId,
    pub result: Option<Json>,
    pub error: Option<Error>,
}

pub struct ResponseV {
    pub id: RequestIdV,
    pub result: Option<JsonV>,
    pub error: Option<ErrorV>,
}

impl View for Response {
    type V = ResponseV;

    open spec fn view(&self) -> ResponseV {
        ResponseV {
            id: self.id@,
            result: opt_view(self.result),
            error: match self.error {
                Some(e) => Some(e@),
                None => None,
            },
        }
    }
}

impl Message {
    /// A request message.
    pub fn request(id: RequestId, method: String, params: Option<Json>) -> (m: Message)
        ensures
            m@ == (MessageV::Request { id: id@, method: method@, params: opt_view(params) }),
    {
        Message::Request { id, method, params }
    }

    /// A response message.
    pub fn response(id: RequestId, result: Option<Json>, error: Option<Error>) -> (m: Message)
        ensures
            m@ == (MessageV::Response {
                id: id@,
                result: opt_view(result),
                error: match error {
                    Some(e) => Some(e@),
                    None => None,
                },
            }),
    {
        Message::Response { id, result, error }
    }

    /// A notification message.
    pub fn notification(method: String, params: Option<Json>) -> (m: Message)
        ensures
            m@ == (MessageV::Notification { method: method@, params: opt_view(params) }),
    {
        Message::Notification { method, params }
    }
}

// ---------------------------------------------------------------------------
// The shape of a message on the wire, as a JSON object.
// ---------------------------------------------------------------------------

pub open spec fn id_json(id: RequestIdV) -> JsonV {
    match id {
        RequestIdV::Int(n) => JsonV::Int(n),
        RequestIdV::Str(s) => JsonV::Str(s),
    }
}

pub open spec fn error_json(e: ErrorV) -> JsonV {
    match e.data {
        Some(d) => JsonV::Obj(
            seq![("code"@, JsonV::Int(e.code)), ("message"@, JsonV::Str(e.message)), ("data"@, d)],
        ),
        None => JsonV::Obj(
            seq![("code"@, JsonV::Int(e.code)), ("message"@, JsonV::Str(e.message))],
        ),
    }
}

/// The JSON object a message is written as.
pub open spec fn msg_json(m: MessageV) -> JsonV {
    match m {
        MessageV::Request { id, method, params } => match params {
            Some(p) => JsonV::Obj(
                seq![
                    ("id"@, id_json(id)),
                    ("method"@, JsonV::Str(method)),
                    ("params"@, p),
                ],
            ),
            None => JsonV::Obj(seq![("id"@, id_json(id)), ("method"@, JsonV::Str(method))]),
        },
        MessageV::Response { id, result, error } => match (result, error) {
            (Some(r), Some(e)) => JsonV::Obj(
                seq![("id"@, id_json(id)), ("result"@, r), ("error"@, error_json(e))],
            ),
            (Some(r), None) => JsonV::Obj(seq![("id"@, id_json(id)), ("result"@, r)]),
            (None, Some(e)) => JsonV::Obj(seq![("id"@, id_json(id)), ("error"@, error_json(e))]),
            (None, None) => JsonV::Obj(seq![("id"@, id_json(id))]),
        },
        MessageV::Notification { method, params } => match params {
            Some(p) => JsonV::Obj(seq![("method"@, JsonV::Str(method)), ("params"@, p)]),
            None => JsonV::Obj(seq![("method"@, JsonV::Str(method))]),
        },
    }
}

/// The canonical line text of a message.
pub open spec fn msg_text(m: MessageV) -> Seq<char> {
    jtext(msg_json(m))
}

// ---------------------------------------------------------------------------
// Classification of a JSON object back into a message.
// ---------------------------------------------------------------------------

/// The value of the first field named `k`, if any.
pub open spec fn find_field(fs: Seq<(Seq<char>, JsonV)>, k: Seq<char>) -> Option<JsonV>
    decreases fs.len(),
{
    if fs.len() == 0 {
        None
    } else if fs[0].0 == k {
        Some(fs[0].1)
    } else {
        find_field(fs.drop_first(), k)
    }
}

/// The id a field value stands for; a value of any other shape is treated as
/// if the id were absent.
pub open spec fn id_of_json(v: JsonV) -> Option<RequestIdV> {
    match v {
        JsonV::Int(n) => Some(RequestIdV::Int(n)),
        JsonV::Str(s) => Some(RequestIdV::Str(s)),
        _ => None,
    }
}

pub open spec fn obj_id(fs: Seq<(Seq<char>, JsonV)>) -> Option<RequestIdV> {
    match find_field(fs, "id"@) {
        Some(v) => id_of_json(v),
        None => None,
    }
}

pub open spec fn obj_method(fs: Seq<(Seq<char>, JsonV)>) -> Option<Seq<char>> {
    match find_field(fs, "method"@) {
        Some(JsonV::Str(s)) => Some(s),
        _ => None,
    }
}

pub open spec fn error_of_json(v: JsonV) -> Option<ErrorV> {
    match v {
        JsonV::Obj(fs) => match (find_field(fs, "code"@), find_field(fs, "message"@)) {
            (Some(JsonV::Int(c)), Some(JsonV::Str(msg))) => Some(
                ErrorV { code: c, message: msg, data: find_field(fs, "data"@) },
            ),
            _ => None,
        },
        _ => None,
    }
}

/// The message a JSON value decodes to. A request needs an id and a string
/// method; an object with an id and no string method is a response; an object
/// with a string method and no id is a notification. Unknown fields are
/// ignored; a response whose `error` field is not a well-formed error object
/// is rejected.
pub open spec fn msg_of_json(j: JsonV) -> Option<MessageV> {
    match j {
        JsonV::Obj(fs) => {
            let id = obj_id(fs);
            let method = obj_method(fs);
            if id is Some && method is Some {
                Some(
                    MessageV::Request {
                        id: id->0,
                        method: method->0,
                        params: find_field(fs, "params"@),
                    },
                )
            } else if id is Some {
                match find_field(fs, "error"@) {
                    Some(ev) => match error_of_json(ev) {
                        Some(e) => Some(
                            MessageV::Response {
                                id: id->0,
                                result: find_field(fs, "result"@),
                                error: Some(e),
                            },
                        ),
                        None => None,
                    },
                    None => Some(
                        MessageV::Response {
                            id: id->0,
                            result: find_field(fs, "result"@),
                            error: None,
                        },
                    ),
                }
            } else if method is Some {
                Some(MessageV::Notification { method: method->0, params: find_field(fs, "params"@) })
            } else {
                None
            }
        },
        _ => None,
    }
}

// ---------------------------------------------------------------------------
// Finding a field of an object, executably.
// ---------------------------------------------------------------------------

proof fn lemma_find_none(fs: Seq<(Seq<char>, JsonV)>, k: Seq<char>)
    requires
        forall|t: int| 0 <= t < fs.len() ==> fs[t].0 != k,
    ensures
        find_field(fs, k) is None,
    decreases fs.len(),
{
    if fs.len() > 0 {
        assert(forall|t: int| 0 <= t < fs.drop_first().len() ==> fs.drop_first()[t].0 != k);
        lemma_find_none(fs.drop_first(), k);
    }
}

proof fn lemma_find_some(fs: Seq<(Seq<char>, JsonV)>, k: Seq<char>, i: int)
    requires
        0 <= i < fs.len(),
        fs[i].0 == k,
        forall|t: int| 0 <= t < i ==> fs[t].0 != k,
    ensures
        find_field(fs, k) == Some(fs[i].1),
    decreases fs.len(),
{
    if i > 0 {
        assert(forall|t: int| 0 <= t < i - 1 ==> fs.drop_first()[t].0 != k);
        assert(fs.drop_first()[i - 1] == fs[i]);
        lemma_find_some(fs.drop_first(), k, i - 1);
    }
}

/// The first field named `key`, by a forward scan.
fn find_ref<'a>(fields: &'a Vec<(String, Json)>, key: &str) -> (r: Option<&'a Json>)
    ensures
        match r {
            Some(v) => find_field(obj_view(fields@), key@) == Some(json_view(*v)),
            None => find_field(obj_view(fields@), key@) is None,
        },
{
    proof {
        lemma_obj_view_index(fields@);
    }
    let n: usize = fields.len();
    let mut i: usize = 0;
    while i < n
        invariant
            n == fields.len(),
            i <= n,
            forall|t: int| 0 <= t < i ==> fields@[t].0@ != key@,
        decreases n - i,
    {
        if str_eq(fields[i].0.as_str(), key) {
            proof {
                lemma_obj_view_index(fields@);
                lemma_find_some(obj_view(fields@), key@, i as int);
            }
            return Some(&fields[i].1);
        }
        i = i + 1;
    }
    proof {
        lemma_obj_view_index(fields@);
        lemma_find_none(obj_view(fields@), key@);
    }
    None
}

fn clone_opt(o: Option<&Json>) -> (r: Option<Json>)
    ensures
        opt_view(r) == match o {
            Some(v) => Some(json_view(*v)),
            None => None::<JsonV>,
        },
{
    match o {
        Some(v) => Some(json_clone(v)),
        None => None,
    }
}

// ---------------------------------------------------------------------------
// Executable codec between messages and JSON values.
// ---------------------------------------------------------------------------

fn id_to_json(id: RequestId) -> (j: Json)
    ensures
        j@ == id_json(id@),
{
    match id {
        RequestId::Int(n) => Json::Int(n),
        RequestId::Str(s) => Json::Str(s),
    }
}

fn id_from_json(v: &Json) -> (r: Option<RequestId>)
    ensures
        match r {
            Some(id) => id_of_json(json_view(*v)) == Some(id@),
            None => id_of_json(json_view(*v)) is None,
        },
{
    match v {
        Json::Int(n) => Some(RequestId::Int(*n)),
        Json::Str(s) => Some(RequestId::Str(s.clone())),
        _ => None,
    }
}

fn error_to_json(e: Error) -> (j: Json)
    ensures
        j@ == error_json(e@),
{
    let mut fields: Vec<(String, Json)> = Vec::new();
    fields.push(("code".to_owned(), Json::Int(e.code)));
    fields.push(("message".to_owned(), Json::Str(e.message)));
    match e.data {
        Some(d) => {
            fields.push(("data".to_owned(), d));
            proof {
                lemma_obj_view_index(fields@);
                assert(obj_view(fields@) =~= error_json(e@)->Obj_0);
            }
        },
        None => {
            proof {
                lemma_obj_view_index(fields@);
                assert(obj_view(fields@) =~= error_json(e@)->Obj_0);
            }
        },
    }
    Json::Obj(fields)
}

fn error_from_json(v: &Json) -> (r: Option<Error>)
    ensures
        match r {
            Some(e) => error_of_json(json_view(*v)) == Some(e@),
            None => error_of_json(json_view(*v)) is None,
        },
{
    let fields: &Vec<(String, Json)> = match v {
        Json::Obj(fs) => fs,
        _ => {
            return None;
        },
    };
    let code: i64 = match find_ref(fields, "code") {
        Some(Json::Int(c)) => *c,
        _ => {
            return None;
        },
    };
    let message: String = match find_ref(fields, "message") {
        Some(Json::Str(s)) => s.clone(),
        _ => {
            return None;
        },
    };
    let data: Option<Json> = clone_opt(find_ref(fields, "data"));
    Some(Error { code, message, data })
}

/// Builds the JSON object a message is written as.
pub fn message_to_json(m: Message) -> (j: Json)
    ensures
        j@ == msg_json(m@),
{
    let ghost mv: MessageV = m@;
    match m {
        Message::Request { id, method, params } => {
            let mut fields: Vec<(String, Json)> = Vec::new();
            fields.push(("id".to_owned(), id_to_json(id)));
            fields.push(("method".to_owned(), Json::Str(method)));
            match params {
                Some(p) => {
                    fields.push(("params".to_owned(), p));
                },
                None => {},
            }
            proof {
                lemma_obj_view_index(fields@);
                assert(obj_view(fields@) =~= msg_json(mv)->Obj_0);
            }
            Json::Obj(fields)
        },
        Message::Response { id, result, error } => {
            let mut fields: Vec<(String, Json)> = Vec::new();
            fields.push(("id".to_owned(), id_to_json(id)));
            match result {
                Some(r) => {
                    fields.push(("result".to_owned(), r));
                },
                None => {},
            }
            match error {
                Some(e) => {
                    fields.push(("error".to_owned(), error_to_json(e)));
                },
                None => {},
            }
            proof {
                lemma_obj_view_index(fields@);
                assert(obj_view(fields@) =~= msg_json(mv)->Obj_0);
            }
            Json::Obj(fields)
        },
        Message::Notification { method, params } => {
            let mut fields: Vec<(String, Json)> = Vec::new();
            fields.push(("method".to_owned(), Json::Str(method)));
            match params {
                Some(p) => {
                    fields.push(("params".to_owned(), p));
                },
                None => {},
            }
            proof {
                lemma_obj_view_index(fields@);
                assert(obj_view(fields@) =~= msg_json(mv)->Obj_0);
            }
            Json::Obj(fields)
        },
    }
}

/// Classifies a JSON value as a message, exactly as `msg_of_json` does.
pub fn json_to_message(j: &Json) -> (r: Option<Message>)
    ensures
        match r {
            Some(m) => msg_of_json(j@) == Some(m@),
            None => msg_of_json(j@) is None,
        },
{
    let fields: &Vec<(String, Json)> = match j {
        Json::Obj(fs) => fs,
        _ => {
            return None;
        },
    };
    let id: Option<RequestId> = match find_ref(fields, "id") {
        Some(v) => id_from_json(v),
        None => None,
    };
    let method: Option<String> = match find_ref(fields, "method") {
        Some(Json::Str(s)) => Some(s.clone()),
        _ => None,
    };
    match (id, method) {
        (Some(id), Some(method)) => {
            let params: Option<Json> = clone_opt(find_ref(fields, "params"));
            Some(Message::Request { id, method, params })
        },
        (Some(id), None) => {
            let error: Option<Error> = match find_ref(fields, "error") {
                Some(ev) => match error_from_json(ev) {
                    Some(e) => Some(e),
                    None => {
                        return None;
                    },
                },
                None => None,
            };
            let result: Option<Json> = clone_opt(find_ref(fields, "result"));
            Some(Message::Response { id, result, error })
        },
        (None, Some(method)) => {
            let params: Option<Json> = clone_opt(find_ref(fields, "params"));
            Some(Message::Notification { method, params })
        },
        (None, None) => None,
    }
}

// ---------------------------------------------------------------------------
// The line codec.
// ---------------------------------------------------------------------------

/// Encodes a message as its canonical one-line wire text.
pub fn encode(m: Message) -> (line: String)
    ensures
        line@ == msg_text(m@),
{
    let j: Json = message_to_json(m);
    to_text(&j)
}

/// Decodes one wire line. A line is accepted if and only if it is the
/// canonical text of a well-formed JSON value — an object, fields in any
/// order — that classifies as a message; every other line, including one
/// differing only in whitespace, is rejected by policy, so the grammar the
/// peer must speak is exactly the one `encode` writes.
pub fn decode(line: &str) -> (r: Option<Message>)
    ensures
        match r {
            Some(m) => exists|jv: JsonV|
                wf_json(jv) && line@ == jtext(jv) && msg_of_json(jv) == Some(m@),
            None => true,
        },
        forall|jv: JsonV|
            wf_json(jv) && line@ == jtext(jv) ==> (match msg_of_json(jv) {
                Some(mv) => r is Some && r->0@ == mv,
                None => r is None,
            }),
{
    match from_text(line) {
        Some(j) => {
            let r = json_to_message(&j);
            proof {
                lemma_json_view_wf(j);
                if r is Some {
                    assert(wf_json(j@) && line@ == jtext(j@) && msg_of_json(j@) == Some(r->0@));
                }
                assert forall|jv: JsonV|
                    wf_json(jv) && line@ == jtext(jv) implies (match msg_of_json(jv) {
                    Some(mv) => r is Some && r->0@ == mv,
                    None => r is None,
                }) by {
                    assert(j@ == jv);
                }
            }
            r
        },
        None => None,
    }
}

// ---------------------------------------------------------------------------
// The codec round trip.
// ---------------------------------------------------------------------------

/// The wire object of an executable message is well formed: its ids and
/// error codes fit the machine integers, as do all payload numbers.
pub proof fn lemma_message_json_wf(m: &Message)
    ensures
        wf_json(msg_json(m@)),
{
    match m {
        Message::Request { id, method, params } => {
            match params {
                Some(p) => {
                    lemma_json_view_wf(*p);
                },
                None => {},
            }
        },
        Message::Response { id, result, error } => {
            match result {
                Some(p) => {
                    lemma_json_view_wf(*p);
                },
                None => {},
            }
            match error {
                Some(e) => {
                    match &e.data {
                        Some(d) => {
                            lemma_json_view_wf(*d);
                        },
                        None => {},
                    }
                    lemma_error_fields_wf(e@);
                },
                None => {},
            }
        },
        Message::Notification { method, params } => {
            match params {
                Some(p) => {
                    lemma_json_view_wf(*p);
                },
                None => {},
            }
        },
    }
    lemma_obj_literal_wf(msg_json(m@));
}

/// Well-formedness of an error's wire object, given its payload is well
/// formed.
proof fn lemma_error_fields_wf(e: ErrorV)
    requires
        match e.data {
            Some(d) => wf_json(d),
            None => true,
        },
        i64::MIN <= e.code <= i64::MAX,
    ensures
        wf_json(error_json(e)),
{
    lemma_obj_literal_wf(error_json(e));
}

/// Unrolls `wf_json` over a small literal object: the object is well formed
/// as soon as each of its field values is.
proof fn lemma_obj_literal_wf(j: JsonV)
    requires
        j is Obj,
        forall|k: int| 0 <= k < j->Obj_0.len() ==> wf_json(#[trigger] j->Obj_0[k].1),
    ensures
        wf_json(j),
{
    lemma_wf_obj_pointwise(j->Obj_0);
}

/// `wf_obj` follows from field-wise well-formedness.
proof fn lemma_wf_obj_pointwise(fields: Seq<(Seq<char>, JsonV)>)
    requires
        forall|k: int| 0 <= k < fields.len() ==> wf_json(#[trigger] fields[k].1),
    ensures
        crate::json::wf_obj(fields),
    decreases fields.len(),
{
    if fields.len() > 0 {
        assert(wf_json(fields[0].1));
        assert(forall|k: int|
            0 <= k < fields.drop_first().len() ==> wf_json(#[trigger] fields.drop_first()[k].1));
        lemma_wf_obj_pointwise(fields.drop_first());
    }
}

/// The whole line codec loses nothing. Together with `encode`'s contract —
/// the line it returns is `jtext(msg_json(m@))` — and `decode`'s contract,
/// this says that decoding the line written for a message yields a message
/// with the same view: `decode(encode(m))` succeeds and returns `m`,
/// structurally.
pub proof fn lemma_encode_decode(m: &Message)
    ensures
        wf_json(msg_json(m@)),
        msg_of_json(msg_json(m@)) == Some(m@),
{
    lemma_message_json_wf(m);
    lemma_msg_json_roundtrip(m@);
}

/// Every message classifies back to itself from its wire object: the message
/// grammar loses nothing.
pub proof fn lemma_msg_json_roundtrip(m: MessageV)
    ensures
        msg_of_json(msg_json(m)) == Some(m),
{
    reveal_with_fuel(find_field, 5);
    reveal_strlit("id");
    reveal_strlit("method");
    reveal_strlit("params");
    reveal_strlit("result");
    reveal_strlit("error");
    reveal_strlit("code");
    reveal_strlit("message");
    reveal_strlit("data");
    assert("id"@.len() == 2);
    assert("method"@.len() == 6);
    assert("params"@.len() == 6);
    assert("result"@.len() == 6);
    assert("error"@.len() == 5);
    assert("code"@.len() == 4);
    assert("message"@.len() == 7);
    assert("data"@.len() == 4);
    assert("method"@[0] == 'm' && "params"@[0] == 'p' && "result"@[0] == 'r');
    assert("code"@[0] == 'c' && "data"@[0] == 'd');
    match m {
        MessageV::Request { id, method, params } => {
            match params {
                Some(p) => {
                    let fs = seq![
                        ("id"@, id_json(id)),
                        ("method"@, JsonV::Str(method)),
                        ("params"@, p),
                    ];
                    assert(msg_json(m) == JsonV::Obj(fs));
                    assert(fs.drop_first() =~= seq![("method"@, JsonV::Str(method)), ("params"@, p)]);
                    assert(fs.drop_first().drop_first() =~= seq![("params"@, p)]);
                    assert(find_field(fs, "id"@) == Some(id_json(id)));
                    assert(find_field(fs, "method"@) == Some(JsonV::Str(method)));
                    assert(find_field(fs, "params"@) == Some(p));
                },
                None => {
                    let fs = seq![("id"@, id_json(id)), ("method"@, JsonV::Str(method))];
                    assert(msg_json(m) == JsonV::Obj(fs));
                    assert(fs.drop_first() =~= seq![("method"@, JsonV::Str(method))]);
                    assert(find_field(fs, "id"@) == Some(id_json(id)));
                    assert(find_field(fs, "method"@) == Some(JsonV::Str(method)));
                    assert(find_field(fs, "params"@) is None);
                },
            }
            assert(id_of_json(id_json(id)) == Some(id));
        },
        MessageV::Response { id, result, error } => {
            assert(id_of_json(id_json(id)) == Some(id));
            match error {
                Some(e) => {
                    lemma_error_json_roundtrip(e);
                },
                None => {},
            }
            match (result, error) {
                (Some(r), Some(e)) => {
                    let fs = seq![
                        ("id"@, id_json(id)),
                        ("result"@, r),
                        ("error"@, error_json(e)),
                    ];
                    assert(msg_json(m) == JsonV::Obj(fs));
                    assert(fs.drop_first() =~= seq![("result"@, r), ("error"@, error_json(e))]);
                    assert(fs.drop_first().drop_first() =~= seq![("error"@, error_json(e))]);
                    assert(find_field(fs, "id"@) == Some(id_json(id)));
                    assert(find_field(fs, "method"@) is None);
                    assert(find_field(fs, "result"@) == Some(r));
                    assert(find_field(fs, "error"@) == Some(error_json(e)));
                },
                (Some(r), None) => {
                    let fs = seq![("id"@, id_json(id)), ("result"@, r)];
                    assert(msg_json(m) == JsonV::Obj(fs));
                    assert(fs.drop_first() =~= seq![("result"@, r)]);
                    assert(find_field(fs, "id"@) == Some(id_json(id)));
                    assert(find_field(fs, "method"@) is None);
                    assert(find_field(fs, "result"@) == Some(r));
                    assert(find_field(fs, "error"@) is None);
                },
                (None, Some(e)) => {
                    let fs = seq![("id"@, id_json(id)), ("error"@, error_json(e))];
                    assert(msg_json(m) == JsonV::Obj(fs));
                    assert(fs.drop_first() =~= seq![("error"@, error_json(e))]);
                    assert(find_field(fs, "id"@) == Some(id_json(id)));
                    assert(find_field(fs, "method"@) is None);
                    assert(find_field(fs, "result"@) is None);
                    assert(find_field(fs, "error"@) == Some(error_json(e)));
                },
                (None, None) => {
                    let fs = seq![("id"@, id_json(id))];
                    assert(msg_json(m) == JsonV::Obj(fs));
                    assert(find_field(fs, "id"@) == Some(id_json(id)));
                    assert(find_field(fs, "method"@) is None);
                    assert(find_field(fs, "result"@) is None);
                    assert(find_field(fs, "error"@) is None);
                },
            }
        },
        MessageV::Notification { method, params } => {
            match params {
                Some(p) => {
                    let fs = seq![("method"@, JsonV::Str(method)), ("params"@, p)];
                    assert(msg_json(m) == JsonV::Obj(fs));
                    assert(fs.drop_first() =~= seq![("params"@, p)]);
                    assert(find_field(fs, "method"@) == Some(JsonV::Str(method)));
                    assert(find_field(fs, "id"@) is None);
                    assert(find_field(fs, "params"@) == Some(p));
                },
                None => {
                    let fs = seq![("method"@, JsonV::Str(method))];
                    assert(msg_json(m) == JsonV::Obj(fs));
                    assert(find_field(fs, "method"@) == Some(JsonV::Str(method)));
                    assert(find_field(fs, "id"@) is None);
                    assert(find_field(fs, "params"@) is None);
                },
            }
        },
    }
}

/// An error object classifies back to the error it was written from.
pub proof fn lemma_error_json_roundtrip(e: ErrorV)
    ensures
        error_of_json(error_json(e)) == Some(e),
{
    reveal_with_fuel(find_field, 5);
    reveal_strlit("code");
    reveal_strlit("message");
    reveal_strlit("data");
    assert("code"@.len() == 4);
    assert("message"@.len() == 7);
    assert("data"@.len() == 4);
    assert("code"@[0] == 'c' && "data"@[0] == 'd');
    match e.data {
        Some(d) => {
            let fs = seq![
                ("code"@, JsonV::Int(e.code)),
                ("message"@, JsonV::Str(e.message)),
                ("data"@, d),
            ];
            assert(error_json(e) == JsonV::Obj(fs));
            assert(fs.drop_first() =~= seq![("message"@, JsonV::Str(e.message)), ("data"@, d)]);
            assert(fs.drop_first().drop_first() =~= seq![("data"@, d)]);
            assert(find_field(fs, "code"@) == Some(JsonV::Int(e.code)));
            assert(find_field(fs, "message"@) == Some(JsonV::Str(e.message)));
            assert(find_field(fs, "data"@) == Some(d));
        },
        None => {
            let fs = seq![("code"@, JsonV::Int(e.code)), ("message"@, JsonV::Str(e.message))];
            assert(error_json(e) == JsonV::Obj(fs));
            assert(fs.drop_first() =~= seq![("message"@, JsonV::Str(e.message))]);
            assert(find_field(fs, "code"@) == Some(JsonV::Int(e.code)));
            assert(find_field(fs, "message"@) == Some(JsonV::Str(e.message)));
            assert(find_field(fs, "data"@) is None);
        },
    }
}

} // verus!
