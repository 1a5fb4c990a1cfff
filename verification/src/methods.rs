//! The method registry and the dispatcher.
//!
//! A registry maps method names to handlers; it is filled by
//! `register` during setup (last registration of a name wins) and
//! only read during serving.  Handlers themselves are asynchronous
//! and live with the caller: the registry holds, for each name, the
//! declared arity and the caller's handle for the handler.  `call`
//! performs everything that precedes the handler body — lookup and
//! parameter binding — and either finishes with an error payload or
//! tells the caller which handler to invoke with which arguments.
//! The caller then reports the handler's outcome to `complete_ok` /
//! `complete_failed` to get the final payload.

use vstd::prelude::*;

use crate::binder::bind_params;
use crate::binder::lemma_bound_args_rep;
use crate::binder::sp_bind_ok;
use crate::binder::sp_bind_ok_rep;
use crate::binder::sp_bound_args;
use crate::binder::sp_bound_args_rep;
use crate::error_code::spec_message;
use crate::error_code::ErrorCode;
use crate::error_object::ErrorObject;
use crate::id::Id;
use crate::json::JsonValue;
use crate::parse::lemma_rep_of_list_len;
use crate::parse::rep_of_list;
use crate::parse::JsonRep;
use crate::request::id_rep_of;
use crate::request::sp_parse_request;
use crate::request::spec_version;
use crate::request::RpcRequest;
use crate::response::RpcPayload;
use crate::response::RpcResponse;

verus! {

/// One registered method: its name, its handler's declared arity,
/// and the caller's handle for the handler body.
#[derive(Debug)]
pub struct MethodEntry {
    /// The method name.
    pub name: String,
    /// How many parameters the handler declares.
    pub arity: usize,
    /// The caller's handle for the handler body.
    pub handler: usize,
}

/// The registered entry a method name resolves to: the latest entry
/// carrying that name, if any.
pub open spec fn sp_lookup(ms: Seq<MethodEntry>, name: Seq<char>) -> Option<MethodEntry>
    decreases ms.len(),
{
    if ms.len() == 0 {
        None
    } else if ms.last().name@ == name {
        Some(ms.last())
    } else {
        sp_lookup(ms.drop_last(), name)
    }
}

/// What one dispatch asks of its caller after lookup and binding.
#[derive(Debug)]
pub enum DispatchStep {
    /// Lookup and binding succeeded: invoke the handler behind this
    /// handle with these arguments, then normalize its outcome with
    /// `complete_ok` or `complete_failed`.
    Invoke {
        /// The handle the handler was registered with.
        handler: usize,
        /// The handler's bound argument list, one element per
        /// declared parameter.
        args: Vec<JsonValue>,
    },
    /// Dispatch finished without entering any handler.
    Done(RpcPayload),
}

/// Stores the method-to-handler map together with the shared context.
#[derive(Debug)]
pub struct RpcModule<Ctx> {
    /// The shared application context each dispatch receives.
    pub ctx: Ctx,
    /// The registered methods, in registration order.
    pub methods: Vec<MethodEntry>,
}

impl<Ctx: Default> Default for RpcModule<Ctx> {
    /// An empty registry over the context type's default value.
    fn default() -> (r: Self)
        ensures
            r.methods@ =~= Seq::<MethodEntry>::empty(),
    {
        RpcModule { ctx: Ctx::default(), methods: Vec::new() }
    }
}

impl<Ctx> RpcModule<Ctx> {
    /// An empty registry owning `ctx`.
    pub fn new(ctx: Ctx) -> (r: Self)
        ensures
            r.ctx == ctx,
            r.methods@ =~= Seq::<MethodEntry>::empty(),
    {
        RpcModule { ctx, methods: Vec::new() }
    }

    /// The shared context, for the caller to hand (a copy of) to the
    /// handler it was asked to invoke.
    pub fn ctx(&self) -> (r: &Ctx)
        ensures
            r == &self.ctx,
    {
        &self.ctx
    }

    /// Registers the handler behind `handler`, of arity `arity`,
    /// under `method`.  A later registration of the same name wins.
    pub fn register(&mut self, method: String, arity: usize, handler: usize)
        ensures
            final(self).ctx == old(self).ctx,
            final(self).methods@ == old(self).methods@.push(
                MethodEntry { name: method, arity, handler },
            ),
    {
        self.methods.push(MethodEntry { name: method, arity, handler });
    }

    /// Looks `method` up: the arity and handler handle of the latest
    /// registration of that name.
    pub fn lookup(&self, method: &str) -> (r: Option<(usize, usize)>)
        ensures
            match sp_lookup(self.methods@, method@) {
                Option::None => r is None,
                Option::Some(e) => r == Option::Some((e.arity, e.handler)),
            },
    {
        let name: String = method.to_owned();
        let n = self.methods.len();
        proof {
            assert(self.methods@.subrange(0, n as int) =~= self.methods@);
        }
        let mut i: usize = n;
        while i > 0
            invariant
                i <= n,
                n == self.methods@.len(),
                name@ == method@,
                sp_lookup(self.methods@, method@) == sp_lookup(
                    self.methods@.subrange(0, i as int),
                    method@,
                ),
            decreases i,
        {
            i = i - 1;
            proof {
                assert(self.methods@.subrange(0, i as int + 1).last() == self.methods@[i as int]);
                assert(self.methods@.subrange(0, i as int + 1).drop_last() =~= self.methods@
                    .subrange(0, i as int));
            }
            if self.methods[i].name == name {
                return Some((self.methods[i].arity, self.methods[i].handler));
            }
        }
        proof {
            assert(self.methods@.subrange(0, 0) =~= Seq::<MethodEntry>::empty());
        }
        None
    }

    /// One dispatch, up to the edge of the handler body: looks
    /// `method` up and binds `params`.
    ///
    /// An unknown method finishes at once with a method-not-found
    /// error payload; a binding failure finishes with the binder's
    /// invalid-params error payload; otherwise the caller is asked to
    /// invoke the located handler with the bound arguments.
    pub fn call(&self, method: &str, params: Option<Vec<JsonValue>>) -> (r: DispatchStep)
        ensures
            match sp_lookup(self.methods@, method@) {
                Option::None => r matches DispatchStep::Done(RpcPayload::Error(e)) && e.code
                    == ErrorCode::MethodNotFound && e.message@ == spec_message(
                    ErrorCode::MethodNotFound,
                ),
                Option::Some(entry) => {
                    let ps = match params {
                        Option::Some(ps) => Option::Some(ps@),
                        Option::None => Option::None,
                    };
                    if sp_bind_ok(entry.arity as nat, ps) {
                        r matches DispatchStep::Invoke { handler, args } && handler
                            == entry.handler && args@ == sp_bound_args(
                            entry.arity as nat,
                            match ps {
                                Option::Some(s) => s,
                                Option::None => Seq::empty(),
                            },
                        )
                    } else {
                        r matches DispatchStep::Done(RpcPayload::Error(e)) && e.code
                            == ErrorCode::InvalidParams && e.message@ == (if entry.arity == 0 {
                            "No params were expected"@
                        } else {
                            "Invalid params"@
                        })
                    }
                },
            },
    {
        let Some((arity, handler)) = self.lookup(method) else {
            return DispatchStep::Done(RpcPayload::from_code(ErrorCode::MethodNotFound));
        };
        match bind_params(arity, params) {
            Ok(args) => DispatchStep::Invoke { handler, args },
            Err(e) => DispatchStep::Done(RpcPayload::Error(e)),
        }
    }
}

/// The payload of a handler that returned the success value `value`.
pub fn complete_ok(value: JsonValue) -> (r: RpcPayload)
    ensures
        r == RpcPayload::Result(value),
{
    RpcPayload::Result(value)
}

/// The payload of a handler that failed internally: an internal-error
/// object whose message is the caller's rendering of the failure.
pub fn complete_failed(rendering: String) -> (r: RpcPayload)
    ensures
        r matches RpcPayload::Error(e) && e.code == ErrorCode::InternalError && e.message@
            == rendering@,
{
    RpcPayload::Error(ErrorObject::new(ErrorCode::InternalError, rendering))
}

/// The payload of a positional argument that would not convert to
/// the handler's declared type: an invalid-params error whose message
/// embeds the caller's description of the conversion failure.
pub fn conversion_failed(detail: &str) -> (r: RpcPayload)
    ensures
        r matches RpcPayload::Error(e) && e.code == ErrorCode::InvalidParams && e.message@
            == "Invalid params: "@ + detail@,
{
    let mut message: String = "Invalid params: ".to_owned();
    message.append(detail);
    RpcPayload::Error(ErrorObject::new(ErrorCode::InvalidParams, message))
}

/// What handling one request text asks of the caller.
#[derive(Debug)]
pub enum HandleStep {
    /// The response is already complete: send it.
    Reply(RpcResponse),
    /// Invoke the handler behind this handle with these arguments,
    /// normalize its outcome with `complete_ok` or `complete_failed`,
    /// and answer under this id.
    Invoke {
        /// The handle the handler was registered with.
        handler: usize,
        /// The handler's bound argument list.
        args: Vec<JsonValue>,
        /// The id of the request, for the response.
        id: Id,
    },
}

impl<Ctx> RpcModule<Ctx> {
    /// Handles one request text up to the edge of the handler body:
    /// parse, lookup, and binding.
    ///
    /// An unparseable text is answered under the null id with the
    /// parse error; an unknown method or a binding failure is
    /// answered under the request's own id; otherwise the caller is
    /// asked to invoke the located handler and answer under the
    /// request's id.
    pub fn handle(&self, text: &str) -> (r: HandleStep)
        ensures
            match sp_parse_request(text@) {
                Option::None => r matches HandleStep::Reply(resp) && resp.jsonrpc@
                    == spec_version() && resp.id == Id::Null && (resp.payload matches
                RpcPayload::Error(e) && e.code == ErrorCode::ParseError && e.message@
                    == spec_message(ErrorCode::ParseError)),
                Option::Some(rr) => match sp_lookup(self.methods@, rr.method) {
                    Option::None => r matches HandleStep::Reply(resp) && resp.jsonrpc@
                        == spec_version() && id_rep_of(resp.id) == rr.id && (resp.payload matches
                    RpcPayload::Error(e) && e.code == ErrorCode::MethodNotFound && e.message@
                        == spec_message(ErrorCode::MethodNotFound)),
                    Option::Some(entry) => if sp_bind_ok_rep(entry.arity as nat, rr.params) {
                        r matches HandleStep::Invoke { handler, args, id } && handler
                            == entry.handler && id_rep_of(id) == rr.id && rep_of_list(
                            args@,
                            args@.len() as int,
                        ) == sp_bound_args_rep(
                            entry.arity as nat,
                            match rr.params {
                                Option::Some(s) => s,
                                Option::None => Seq::empty(),
                            },
                        )
                    } else {
                        r matches HandleStep::Reply(resp) && resp.jsonrpc@ == spec_version()
                            && id_rep_of(resp.id) == rr.id && (resp.payload matches
                        RpcPayload::Error(e) && e.code == ErrorCode::InvalidParams && e.message@
                            == (if entry.arity == 0 {
                            "No params were expected"@
                        } else {
                            "Invalid params"@
                        }))
                    },
                },
            },
    {
        let req = match RpcRequest::parse(text) {
            Result::Ok(req) => req,
            Result::Err(_) => {
                return HandleStep::Reply(
                    RpcResponse::of_payload(Id::Null, RpcPayload::from_code(ErrorCode::ParseError)),
                );
            },
        };
        let RpcRequest { jsonrpc: _, method, params, id } = req;
        let ghost gp = params;
        proof {
            if let Option::Some(ps) = gp {
                lemma_rep_of_list_len(ps@, ps@.len() as int);
            }
        }
        match self.call(method.as_str(), params) {
            DispatchStep::Done(payload) => HandleStep::Reply(RpcResponse::of_payload(id, payload)),
            DispatchStep::Invoke { handler, args } => {
                proof {
                    if let Option::Some(entry) = sp_lookup(self.methods@, method@) {
                        if let Option::Some(ps) = gp {
                            lemma_bound_args_rep(entry.arity as nat, ps@);
                        } else {
                            lemma_bound_args_rep(entry.arity as nat, Seq::empty());
                            assert(rep_of_list(Seq::<JsonValue>::empty(), 0)
                                =~= Seq::<JsonRep>::empty());
                        }
                        lemma_rep_of_list_len(args@, args@.len() as int);
                    }
                }
                HandleStep::Invoke { handler, args, id }
            },
        }
    }
}

/// The complete parse-failure response: the null id and the
/// canonical parse error.
pub fn parse_error_response() -> (r: RpcResponse)
    ensures
        r.jsonrpc@ == spec_version(),
        r.id == Id::Null,
        r.payload matches RpcPayload::Error(e) && e.code == ErrorCode::ParseError && e.message@
            == spec_message(ErrorCode::ParseError),
{
    RpcResponse::of_payload(Id::Null, RpcPayload::from_code(ErrorCode::ParseError))
}

} // verus!
