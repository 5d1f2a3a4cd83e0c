use runner::grpc::{
    create_and_start_grpc_server, handle_request, RequestAction, RequestEvent, ServerAction,
    ServerEvent,
};

type Event = RequestEvent<u8, &'static str, &'static str>;

type Starting = ServerEvent<u8, &'static str, &'static str>;

fn start(event: Starting) -> ServerAction<u8, &'static str, &'static str> {
    create_and_start_grpc_server(event, "ThreadId(1)", "127.0.0.1:8080")
}

#[test]
fn requests_are_worked_on_in_turn() {
    assert!(matches!(handle_request(Event::Policy(Ok(3))), RequestAction::Apply { policy: 3 }));
    assert!(matches!(
        handle_request(Event::Response(Ok("hello"))),
        RequestAction::Encode { response: "hello" }
    ));
    match handle_request(Event::Encoding(Ok(vec![1, 2]))) {
        RequestAction::Reply { bytes } => assert_eq!(bytes, vec![1, 2]),
        _ => panic!("no reply"),
    }
}

#[test]
fn failed_requests_tell_where_they_failed() {
    let refusal = |event: Event| match handle_request(event) {
        RequestAction::Refuse { context, cause } => (context, cause),
        _ => panic!("the request was not refused"),
    };
    assert_eq!(refusal(Event::Policy(Err("p"))), ("invalid policy", "p"));
    assert_eq!(refusal(Event::Response(Err("r"))), ("internal error", "r"));
    assert_eq!(refusal(Event::Encoding(Err("e"))), ("couldn't encode response", "e"));
}

#[test]
fn servers_are_announced_and_started() {
    match start(Starting::Handler(Ok(5))) {
        ServerAction::Announce { message, handler } => {
            assert_eq!(message, "ThreadId(1): Starting gRPC server on 127.0.0.1:8080");
            assert_eq!(handler, 5);
        }
        _ => panic!("the server was not announced"),
    }
    assert!(matches!(
        start(Starting::Service(Ok("service"))),
        ServerAction::Serve { service: "service" }
    ));
    assert!(matches!(start(Starting::Served(Ok(()))), ServerAction::Finish));
}

#[test]
fn failed_servers_tell_where_they_failed() {
    let failure = |event: Starting| match start(event) {
        ServerAction::Abort { context, cause } => (context, cause),
        _ => panic!("the server was not given up"),
    };
    assert_eq!(failure(Starting::Handler(Err("h"))), (None, "h"));
    assert_eq!(
        failure(Starting::Service(Err("s"))),
        (Some("Couldn't create remote attestation server"), "s")
    );
    assert_eq!(failure(Starting::Served(Err("t"))), (Some("Couldn't start server"), "t"));
}
