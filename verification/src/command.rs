//! Typed commands and responses exchanged between clients and device servers,
//! together with the builders that construct well-formed requests.

use vstd::prelude::*;

verus! {

/// The operation a request asks a device to perform. The first three are
/// socket operations, the last one a thermometer operation.
#[derive(Debug, Clone, Copy, PartialEq, Eq, Structural)]
pub enum RequestType {
    SocketTurnOn,
    SocketTurnOff,
    SocketGetState,
    ThermGetTemp,
}

/// A request: an operation aimed at the device registered under `id`.
#[derive(Debug)]
pub struct CommandRequest {
    id: String,
    request: RequestType,
}

/// The mathematical content of a request: the target id's characters and the
/// operation.
pub struct ReqView {
    pub id: Seq<char>,
    pub kind: RequestType,
}

impl View for CommandRequest {
    type V = ReqView;

    closed spec fn view(&self) -> ReqView {
        ReqView { id: self.id@, kind: self.request }
    }
}

impl CommandRequest {
    /// Starts building a request; a device category is chosen next.
    pub fn new() -> (b: CommandRequestBuilder) {
        CommandRequestBuilder
    }

    /// The id of the device the request is aimed at.
    pub fn id(&self) -> (r: &str)
        ensures
            r@ == self@.id,
    {
        self.id.as_str()
    }

    /// The requested operation.
    pub fn req_type(&self) -> (r: &RequestType)
        ensures
            *r == self@.kind,
    {
        &self.request
    }

    /// Assembles a request directly from its two fields.
    pub fn from_parts(id: &str, request: RequestType) -> (r: CommandRequest)
        ensures
            r@.id == id@,
            r@.kind == request,
    {
        CommandRequest { id: id.to_owned(), request }
    }
}

/// First step of request construction: pick the device category.
pub struct CommandRequestBuilder;

/// Builds requests for a socket with the held id.
pub struct SocketRequestBuilder<'a>(&'a str);

/// Builds requests for a thermometer with the held id.
pub struct ThermRequestBuilder<'a>(&'a str);

impl<'a> SocketRequestBuilder<'a> {
    /// The id the builder holds.
    pub closed spec fn spec_id(&self) -> Seq<char> {
        self.0@
    }
}

impl<'a> ThermRequestBuilder<'a> {
    /// The id the builder holds.
    pub closed spec fn spec_id(&self) -> Seq<char> {
        self.0@
    }
}

impl CommandRequestBuilder {
    /// Aim the request at the socket registered under `id`.
    pub fn socket<'a>(self, id: &'a str) -> (b: SocketRequestBuilder<'a>)
        ensures
            b.spec_id() == id@,
    {
        SocketRequestBuilder(id)
    }

    /// Aim the request at the thermometer registered under `id`.
    pub fn therm<'a>(self, id: &'a str) -> (b: ThermRequestBuilder<'a>)
        ensures
            b.spec_id() == id@,
    {
        ThermRequestBuilder(id)
    }
}

impl<'a> SocketRequestBuilder<'a> {
    /// The request that turns the socket on.
    pub fn turn_on(self) -> (r: CommandRequest)
        ensures
            r@.id == self.spec_id(),
            r@.kind == RequestType::SocketTurnOn,
    {
        CommandRequest { id: self.0.to_owned(), request: RequestType::SocketTurnOn }
    }

    /// The request that turns the socket off.
    pub fn turn_off(self) -> (r: CommandRequest)
        ensures
            r@.id == self.spec_id(),
            r@.kind == RequestType::SocketTurnOff,
    {
        CommandRequest { id: self.0.to_owned(), request: RequestType::SocketTurnOff }
    }

    /// The request that reads the socket's state and power draw.
    pub fn get_state(self) -> (r: CommandRequest)
        ensures
            r@.id == self.spec_id(),
            r@.kind == RequestType::SocketGetState,
    {
        CommandRequest { id: self.0.to_owned(), request: RequestType::SocketGetState }
    }
}

impl<'a> ThermRequestBuilder<'a> {
    /// The request that reads the thermometer's temperature.
    pub fn get_temp(self) -> (r: CommandRequest)
        ensures
            r@.id == self.spec_id(),
            r@.kind == RequestType::ThermGetTemp,
    {
        CommandRequest { id: self.0.to_owned(), request: RequestType::ThermGetTemp }
    }
}

/// The outcome a response carries: a success payload or an error message.
#[derive(Debug)]
pub enum ResponseType {
    Success(String),
    Error(String),
}

/// The mathematical content of a response outcome.
pub enum RespTypeView {
    Success(Seq<char>),
    Error(Seq<char>),
}

impl View for ResponseType {
    type V = RespTypeView;

    open spec fn view(&self) -> RespTypeView {
        match self {
            ResponseType::Success(s) => RespTypeView::Success(s@),
            ResponseType::Error(s) => RespTypeView::Error(s@),
        }
    }
}

impl PartialEq for ResponseType {
    fn eq(&self, other: &ResponseType) -> (r: bool) {
        match (self, other) {
            (ResponseType::Success(a), ResponseType::Success(b)) => *a == *b,
            (ResponseType::Error(a), ResponseType::Error(b)) => *a == *b,
            _ => false,
        }
    }
}

impl vstd::std_specs::cmp::PartialEqSpecImpl for ResponseType {
    open spec fn obeys_eq_spec() -> bool {
        true
    }

    open spec fn eq_spec(&self, other: &ResponseType) -> bool {
        self@ == other@
    }
}

/// A response: the echoed target id and the outcome.
#[derive(Debug)]
pub struct CommandResponse {
    id: String,
    response: ResponseType,
}

/// The mathematical content of a response.
pub struct RespView {
    pub id: Seq<char>,
    pub resp: RespTypeView,
}

impl View for CommandResponse {
    type V = RespView;

    closed spec fn view(&self) -> RespView {
        RespView { id: self.id@, resp: self.response@ }
    }
}

impl CommandResponse {
    /// Assembles a response from the echoed id and the outcome.
    pub fn new(id: &str, response: ResponseType) -> (r: CommandResponse)
        ensures
            r@.id == id@,
            r@.resp == response@,
    {
        CommandResponse { id: id.to_owned(), response }
    }

    /// The id the response echoes.
    pub fn id(&self) -> (r: &str)
        ensures
            r@ == self@.id,
    {
        self.id.as_str()
    }

    /// The outcome the response carries.
    pub fn response(&self) -> (r: &ResponseType)
        ensures
            r@ == self@.resp,
    {
        &self.response
    }

    /// The success payload, if the outcome is a success.
    pub fn success(self) -> (r: Option<String>)
        ensures
            match r {
                Some(s) => self@.resp == RespTypeView::Success(s@),
                None => self@.resp is Error,
            },
    {
        match self.response {
            ResponseType::Success(s) => Some(s),
            ResponseType::Error(_) => None,
        }
    }
}

impl PartialEq for CommandResponse {
    fn eq(&self, other: &CommandResponse) -> (r: bool) {
        self.id == other.id && self.response == other.response
    }
}

impl vstd::std_specs::cmp::PartialEqSpecImpl for CommandResponse {
    open spec fn obeys_eq_spec() -> bool {
        true
    }

    open spec fn eq_spec(&self, other: &CommandResponse) -> bool {
        self@.id == other@.id && self@.resp == other@.resp
    }
}

} // verus!
