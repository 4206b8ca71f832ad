use game_server_sample::fsm::{SessionMode, State, StateMachine};

#[test]
fn starts_empty() {
    let sm = StateMachine::new();
    assert!(sm.peek().is_none());
}

#[test]
fn push_and_pop_are_a_stack() {
    let mut sm = StateMachine::new();
    sm.push(State::Menu);
    sm.push(State::QuitDialog);
    assert!(matches!(sm.peek(), Some(State::QuitDialog)));
    sm.pop();
    assert!(matches!(sm.peek(), Some(State::Menu)));
    sm.pop();
    assert!(sm.peek().is_none());
    // Popping an empty stack is a no-op.
    sm.pop();
    assert!(sm.peek().is_none());
}

#[test]
fn change_is_a_hard_transition() {
    let mut sm = StateMachine::new();
    sm.push(State::Menu);
    sm.push(State::Connecting {
        server_address: String::from("127.0.0.1:8080"),
        session_mode: SessionMode::ConnectAsClientOnly,
    });
    sm.change(State::Playing);
    assert!(matches!(sm.peek(), Some(State::Playing)));
    // The stack was cleared: nothing is underneath.
    sm.pop();
    assert!(sm.peek().is_none());
}

#[test]
fn connecting_carries_its_target() {
    let mut sm = StateMachine::new();
    sm.push(State::Connecting {
        server_address: String::from("10.0.0.1:9000"),
        session_mode: SessionMode::CreateServer,
    });
    match sm.peek() {
        Some(State::Connecting {
            server_address,
            session_mode,
        }) => {
            assert_eq!(server_address, "10.0.0.1:9000");
            assert!(matches!(session_mode, SessionMode::CreateServer));
        }
        other => panic!("expected Connecting, got {:?}", other.is_some()),
    }
}

#[test]
fn set_top_replaces_only_the_top() {
    let mut sm = StateMachine::new();
    // On an empty stack it is a no-op.
    sm.set_top(State::Quit);
    assert!(sm.peek().is_none());

    sm.push(State::Menu);
    sm.push(State::Disconnected);
    sm.set_top(State::Quit);
    assert!(matches!(sm.peek(), Some(State::Quit)));
    sm.pop();
    assert!(matches!(sm.peek(), Some(State::Menu)));
}
