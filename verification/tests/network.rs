use drakors::components::PlayerId;
use drakors::events::{CommandEvent, DisconnectEvent};
use drakors::network::{
    connection_step, ConnectionAction, ConnectionEvent, ConnectionState, GOODBYE, QUIT,
};

fn step(state: ConnectionState, event: ConnectionEvent) -> (ConnectionState, String) {
    let (next, action) = connection_step(state, event);
    let told = match action {
        ConnectionAction::Greet => "greet".to_string(),
        ConnectionAction::Forward(CommandEvent { player, input }) => {
            format!("forward {} {:?}", player.0, input)
        }
        ConnectionAction::Leave(DisconnectEvent { player }) => format!("leave {}", player.0),
        ConnectionAction::SayGoodbye(DisconnectEvent { player }) => format!("goodbye {}", player.0),
        ConnectionAction::Fail => "fail".to_string(),
        ConnectionAction::Stop => "stop".to_string(),
        ConnectionAction::Ignore => "ignore".to_string(),
    };
    (next, told)
}

fn line(text: &str) -> ConnectionEvent {
    ConnectionEvent::Line(text.to_string())
}

#[test]
fn a_connection_greets_once_it_has_its_identity() {
    let id = PlayerId(7);
    assert_eq!(
        step(ConnectionState::Registering, ConnectionEvent::Registered(id)),
        (ConnectionState::Open(id), "greet".to_string())
    );
}

#[test]
fn nothing_is_forwarded_before_the_identity_is_known() {
    for event in [line("look"), line("quit"), ConnectionEvent::EndOfStream] {
        assert_eq!(
            step(ConnectionState::Registering, event),
            (ConnectionState::Registering, "ignore".to_string())
        );
    }
}

#[test]
fn a_registration_without_an_answer_fails_the_connection() {
    assert_eq!(
        step(ConnectionState::Registering, ConnectionEvent::RegistrationDropped),
        (ConnectionState::Closed, "fail".to_string())
    );
    assert_eq!(
        step(ConnectionState::Registering, ConnectionEvent::QueuesClosed),
        (ConnectionState::Closed, "fail".to_string())
    );
}

#[test]
fn a_line_is_forwarded_without_the_whitespace_at_its_end() {
    let id = PlayerId(3);
    assert_eq!(
        step(ConnectionState::Open(id), line("  say hi  \r\n")),
        (ConnectionState::Open(id), "forward 3 \"  say hi\"".to_string())
    );
    assert_eq!(
        step(ConnectionState::Open(id), line("\n")),
        (ConnectionState::Open(id), "forward 3 \"\"".to_string())
    );
    assert_eq!(
        step(ConnectionState::Open(id), line(" quit\n")),
        (ConnectionState::Open(id), "forward 3 \" quit\"".to_string())
    );
    assert_eq!(
        step(ConnectionState::Open(id), line("quit now\n")),
        (ConnectionState::Open(id), "forward 3 \"quit now\"".to_string())
    );
}

#[test]
fn quit_in_any_case_says_goodbye_and_closes() {
    let id = PlayerId(4);
    for text in ["quit", "QUIT\r\n", "Quit   ", "qUiT\n"] {
        assert_eq!(
            step(ConnectionState::Open(id), line(text)),
            (ConnectionState::Closed, "goodbye 4".to_string())
        );
    }
    assert_eq!(QUIT, "quit");
    assert_eq!(GOODBYE, "Goodbye!\r\n");
}

#[test]
fn the_end_of_the_stream_leaves() {
    let id = PlayerId(5);
    assert_eq!(
        step(ConnectionState::Open(id), ConnectionEvent::EndOfStream),
        (ConnectionState::Closed, "leave 5".to_string())
    );
}

#[test]
fn closed_queues_stop_an_open_connection() {
    let id = PlayerId(6);
    assert_eq!(
        step(ConnectionState::Open(id), ConnectionEvent::QueuesClosed),
        (ConnectionState::Closed, "stop".to_string())
    );
}

#[test]
fn an_open_connection_ignores_a_second_answer() {
    let id = PlayerId(6);
    assert_eq!(
        step(ConnectionState::Open(id), ConnectionEvent::Registered(PlayerId(9))),
        (ConnectionState::Open(id), "ignore".to_string())
    );
    assert_eq!(
        step(ConnectionState::Open(id), ConnectionEvent::RegistrationDropped),
        (ConnectionState::Open(id), "ignore".to_string())
    );
}

#[test]
fn a_closed_connection_does_nothing() {
    for event in [
        line("look"),
        ConnectionEvent::EndOfStream,
        ConnectionEvent::Registered(PlayerId(1)),
        ConnectionEvent::RegistrationDropped,
        ConnectionEvent::QueuesClosed,
    ] {
        assert_eq!(
            step(ConnectionState::Closed, event),
            (ConnectionState::Closed, "ignore".to_string())
        );
    }
}
