//! The decisions of a gRPC server: how a request is answered, and how the server is started.

use vstd::prelude::*;
use vstd::string::*;

verus! {

/// What has come of a part of the work on a request. `P` is a policy, `R` a response, and `E` the
/// cause of a failure.
pub enum RequestEvent<P, R, E> {
    /// The configured policy was turned into one that can be applied.
    Policy(Result<P, E>),
    /// The module was invoked under the policy.
    Response(Result<R, E>),
    /// The response was encoded.
    Encoding(Result<Vec<u8>, E>),
}

/// What is to be done next about a request.
pub enum RequestAction<P, R, E> {
    /// Invoke the module under the policy; this leads to [`RequestEvent::Response`].
    Apply { policy: P },
    /// Encode the response; this leads to [`RequestEvent::Encoding`].
    Encode { response: R },
    /// Reply with these bytes.
    Reply { bytes: Vec<u8> },
    /// Give up on the request, for the given cause and in the given context.
    Refuse { context: &'static str, cause: E },
}

/// How a request is answered in the end, if the parts of the work turn out as given: with the
/// encoded response if all of them succeed, and else with the first failure in its context.
pub open spec fn request_outcome<P, R, E>(
    policy: Result<P, E>,
    response: Result<R, E>,
    encoding: Result<Vec<u8>, E>,
) -> Result<Vec<u8>, (Seq<char>, E)> {
    match (policy, response, encoding) {
        (Err(cause), _, _) => Err(("invalid policy"@, cause)),
        (Ok(_), Err(cause), _) => Err(("internal error"@, cause)),
        (Ok(_), Ok(_), Err(cause)) => Err(("couldn't encode response"@, cause)),
        (Ok(_), Ok(_), Ok(bytes)) => Ok(bytes),
    }
}

/// How a request is answered by an action, unless more is to be done before.
pub open spec fn request_answer<P, R, E>(action: RequestAction<P, R, E>) -> Option<
    Result<Vec<u8>, (Seq<char>, E)>,
> {
    match action {
        RequestAction::Reply { bytes } => Some(Ok(bytes)),
        RequestAction::Refuse { context, cause } => Some(Err((context@, cause))),
        _ => None,
    }
}

/// What is done about a request after an event.
pub open spec fn request_action<P, R, E>(
    event: RequestEvent<P, R, E>,
    action: RequestAction<P, R, E>,
) -> bool {
    match event {
        RequestEvent::Policy(Ok(policy)) => action == RequestAction::<P, R, E>::Apply { policy },
        RequestEvent::Policy(Err(cause)) => request_answer(action) == Some(
            Err::<Vec<u8>, (Seq<char>, E)>(("invalid policy"@, cause)),
        ),
        RequestEvent::Response(Ok(response)) => action == RequestAction::<P, R, E>::Encode {
            response,
        },
        RequestEvent::Response(Err(cause)) => request_answer(action) == Some(
            Err::<Vec<u8>, (Seq<char>, E)>(("internal error"@, cause)),
        ),
        RequestEvent::Encoding(Ok(bytes)) => action == RequestAction::<P, R, E>::Reply { bytes },
        RequestEvent::Encoding(Err(cause)) => request_answer(action) == Some(
            Err::<Vec<u8>, (Seq<char>, E)>(("couldn't encode response"@, cause)),
        ),
    }
}

/// Decides what is done next about a request, once a part of the work on it has come to an end.
pub fn handle_request<P, R, E>(event: RequestEvent<P, R, E>) -> (action: RequestAction<P, R, E>)
    ensures
        request_action(event, action),
{
    match event {
        RequestEvent::Policy(Ok(policy)) => RequestAction::Apply { policy },
        RequestEvent::Policy(Err(cause)) => RequestAction::Refuse {
            context: "invalid policy",
            cause,
        },
        RequestEvent::Response(Ok(response)) => RequestAction::Encode { response },
        RequestEvent::Response(Err(cause)) => RequestAction::Refuse {
            context: "internal error",
            cause,
        },
        RequestEvent::Encoding(Ok(bytes)) => RequestAction::Reply { bytes },
        RequestEvent::Encoding(Err(cause)) => RequestAction::Refuse {
            context: "couldn't encode response",
            cause,
        },
    }
}

/// What has come of a part of the work to start a server. `H` handles the requests, `S` is the
/// service around it, and `E` the cause of a failure.
pub enum ServerEvent<H, S, E> {
    /// The handler of the requests was created.
    Handler(Result<H, E>),
    /// The attestation service around the handler was created.
    Service(Result<S, E>),
    /// The server was shut down, or could not be started.
    Served(Result<(), E>),
}

/// What is to be done next to start a server.
pub enum ServerAction<H, S, E> {
    /// Log the message, and create the attestation service; this leads to
    /// [`ServerEvent::Service`].
    Announce { message: String, handler: H },
    /// Serve until the server is told to terminate; this leads to [`ServerEvent::Served`].
    Serve { service: S },
    /// Nothing: the server was shut down.
    Finish,
    /// Give up on the server, for the given cause and in the given context, if there is one.
    Abort { context: Option<&'static str>, cause: E },
}

/// What is logged before a server is started on `address` by a thread.
pub open spec fn start_text(thread: Seq<char>, address: Seq<char>) -> Seq<char> {
    thread + ": Starting gRPC server on "@ + address
}

/// What is done to start a server after an event.
pub open spec fn server_action<H, S, E>(
    event: ServerEvent<H, S, E>,
    thread: Seq<char>,
    address: Seq<char>,
    action: ServerAction<H, S, E>,
) -> bool {
    match (event, action) {
        (
            ServerEvent::Handler(Ok(handler)),
            ServerAction::Announce { message, handler: announced },
        ) => message@ == start_text(thread, address) && announced == handler,
        (ServerEvent::Handler(Err(cause)), ServerAction::Abort { context, cause: reported }) => {
            context is None && reported == cause
        },
        (ServerEvent::Service(Ok(service)), ServerAction::Serve { service: served }) => served
            == service,
        (ServerEvent::Service(Err(cause)), ServerAction::Abort { context, cause: reported }) => {
            &&& context matches Some(context)
            &&& context@ == "Couldn't create remote attestation server"@
            &&& reported == cause
        },
        (ServerEvent::Served(Ok(_)), ServerAction::Finish) => true,
        (ServerEvent::Served(Err(cause)), ServerAction::Abort { context, cause: reported }) => {
            &&& context matches Some(context)
            &&& context@ == "Couldn't start server"@
            &&& reported == cause
        },
        _ => false,
    }
}

/// Decides what is done next to start a server on `address` from a thread, once a part of that
/// work has come to an end.
pub fn create_and_start_grpc_server<H, S, E>(
    event: ServerEvent<H, S, E>,
    thread: &str,
    address: &str,
) -> (action: ServerAction<H, S, E>)
    ensures
        server_action(event, thread@, address@, action),
{
    match event {
        ServerEvent::Handler(Ok(handler)) => {
            let mut message = thread.to_owned();
            message.append(": Starting gRPC server on ");
            message.append(address);
            ServerAction::Announce { message, handler }
        },
        ServerEvent::Handler(Err(cause)) => ServerAction::Abort { context: None, cause },
        ServerEvent::Service(Ok(service)) => ServerAction::Serve { service },
        ServerEvent::Service(Err(cause)) => ServerAction::Abort {
            context: Some("Couldn't create remote attestation server"),
            cause,
        },
        ServerEvent::Served(Ok(())) => ServerAction::Finish,
        ServerEvent::Served(Err(cause)) => ServerAction::Abort {
            context: Some("Couldn't start server"),
            cause,
        },
    }
}

/// A request is answered with what the parts of the work on it add up to, if each action follows
/// from the event before it: the module is not invoked unless the policy is valid, and only a
/// response is encoded.
pub proof fn requests_are_answered<P, R, E>(
    policy: Result<P, E>,
    response: Result<R, E>,
    encoding: Result<Vec<u8>, E>,
    on_policy: RequestAction<P, R, E>,
    on_response: RequestAction<P, R, E>,
    on_encoding: RequestAction<P, R, E>,
)
    requires
        request_action(RequestEvent::Policy(policy), on_policy),
        request_action(RequestEvent::Response(response), on_response),
        request_action(RequestEvent::Encoding(encoding), on_encoding),
    ensures
        on_policy is Apply <==> policy is Ok,
        on_response is Encode <==> response is Ok,
        Some(request_outcome(policy, response, encoding)) == if !(on_policy is Apply) {
            request_answer(on_policy)
        } else if !(on_response is Encode) {
            request_answer(on_response)
        } else {
            request_answer(on_encoding)
        },
{
}

/// A request is refused in the context of the part of the work that failed, with its cause; and
/// what one part yields is what the next one gets.
pub proof fn refusals_name_the_part_that_failed<P, R, E>(
    policy: P,
    response: R,
    bytes: Vec<u8>,
    cause: E,
    action: RequestAction<P, R, E>,
)
    ensures
        request_action(RequestEvent::Policy(Ok(policy)), action) <==> action
            == (RequestAction::<P, R, E>::Apply { policy }),
        request_action(RequestEvent::Response(Ok(response)), action) <==> action
            == (RequestAction::<P, R, E>::Encode { response }),
        request_action(RequestEvent::Encoding(Ok(bytes)), action) <==> action
            == (RequestAction::<P, R, E>::Reply { bytes }),
        request_action(RequestEvent::Policy(Err(cause)), action) ==> (action matches
            RequestAction::Refuse { context, cause: told } && context@ == "invalid policy"@ && told
            == cause),
        request_action(RequestEvent::Response(Err(cause)), action) ==> (action matches
            RequestAction::Refuse { context, cause: told } && context@ == "internal error"@ && told
            == cause),
        request_action(RequestEvent::Encoding(Err(cause)), action) ==> (action matches
            RequestAction::Refuse { context, cause: told } && context@
            == "couldn't encode response"@ && told == cause),
{
}

/// A server is announced with its address before the service is created, served once there is a
/// service, and finished once it was shut down; a failure is told with its cause, in the context of
/// the part of the work that failed, unless the handler could not be created.
pub proof fn servers_are_announced_and_served<H, S, E>(
    handler: H,
    service: S,
    cause: E,
    thread: Seq<char>,
    address: Seq<char>,
    action: ServerAction<H, S, E>,
)
    ensures
        server_action(ServerEvent::Handler(Ok(handler)), thread, address, action) ==> (
        action matches ServerAction::Announce { message, handler: given } && message@ == thread
            + ": Starting gRPC server on "@ + address && given == handler),
        server_action(ServerEvent::Service(Ok(service)), thread, address, action) ==> action
            == (ServerAction::<H, S, E>::Serve { service }),
        server_action(ServerEvent::Served(Ok(())), thread, address, action) ==> action
            == (ServerAction::<H, S, E>::Finish),
        server_action(ServerEvent::Handler(Err(cause)), thread, address, action) ==> action
            == (ServerAction::<H, S, E>::Abort { context: None, cause }),
        server_action(ServerEvent::Service(Err(cause)), thread, address, action) ==> (
        action matches ServerAction::Abort { context: Some(context), cause: told } && context@
            == "Couldn't create remote attestation server"@ && told == cause),
        server_action(ServerEvent::Served(Err(cause)), thread, address, action) ==> (
        action matches ServerAction::Abort { context: Some(context), cause: told } && context@
            == "Couldn't start server"@ && told == cause),
{
}

} // verus!
