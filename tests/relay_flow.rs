use thread_relay::classify::{classify, IncomingMessage, Route, ThreadInfo};
use thread_relay::context::{assemble_context, message_role, HistoryMessage, Role};
use thread_relay::directory::PromptDirectory;
use thread_relay::pipeline::{Action, Event, Handling, Phase, RelayConfig, RelayError};

const RELAY: u64 = 900;
const CONTAINER_A: u64 = 10;
const THREAD_T: u64 = 100;

fn config() -> RelayConfig {
    RelayConfig { relay_id: RELAY, history_limit: 100, max_tokens: 1024, model: "gpt-4".to_string(), max_chunk: 2000 }
}

fn directory() -> PromptDirectory {
    PromptDirectory::from_table("10 = Be concise.\n20 30\n").ok().unwrap()
}

fn threads() -> Vec<ThreadInfo> {
    vec![
        ThreadInfo { id: 101, parent_id: 40 },
        ThreadInfo { id: THREAD_T, parent_id: CONTAINER_A },
        ThreadInfo { id: 200, parent_id: 20 },
        ThreadInfo { id: 300, parent_id: 40 },
    ]
}

fn msg(author_id: u64, timestamp: i64, content: &str) -> HistoryMessage {
    HistoryMessage { author_id, timestamp, content: content.to_string() }
}

/// Three user messages and one of the relay's, newest first.
fn history() -> Vec<HistoryMessage> {
    vec![msg(1, 40, "third"), msg(RELAY, 30, "answer"), msg(2, 20, "second"), msg(1, 10, "first")]
}

fn start(author_id: u64, channel_id: u64) -> (Handling, Action) {
    Handling::start(IncomingMessage { author_id, channel_id }, &threads(), &directory(), &config())
}

#[test]
fn literal_prompt_conversation_delivers_one_chunk() {
    let c = config();
    let (mut h, a) = start(1, THREAD_T);
    assert!(matches!(a, Action::FetchHistory { thread: THREAD_T, limit: 100 }));
    match h.handle(Event::HistoryFetched(history()), &c) {
        Action::RequestCompletion(req) => {
            assert_eq!(req.model, "gpt-4");
            assert_eq!(req.max_tokens, 1024);
            assert_eq!(req.messages.len(), 5);
            assert_eq!(req.messages[0].role, Role::System);
            assert_eq!(req.messages[0].text, "Be concise.");
            let texts: Vec<&str> = req.messages[1..].iter().map(|e| e.text.as_str()).collect();
            assert_eq!(texts, vec!["first", "second", "answer", "third"]);
            let roles: Vec<Role> = req.messages[1..].iter().map(|e| e.role).collect();
            assert_eq!(roles, vec![Role::User, Role::User, Role::System, Role::User]);
        },
        _ => panic!("expected a completion request"),
    }
    match h.handle(Event::CompletionReturned(vec!["Hi".to_string()]), &c) {
        Action::SendChunk { thread, text } => {
            assert_eq!(thread, THREAD_T);
            assert_eq!(text, "Hi");
        },
        _ => panic!("expected one chunk"),
    }
    assert!(matches!(h.handle(Event::ChunkSent, &c), Action::Finish));
    assert_eq!(h.phase(), Phase::Done);
}

#[test]
fn long_reply_is_sent_in_three_chunks_in_order() {
    let c = config();
    let (mut h, _) = start(1, THREAD_T);
    h.handle(Event::HistoryFetched(history()), &c);
    let reply: String = (0..4500).map(|i| char::from(b'a' + (i % 26) as u8)).collect();
    let mut sent: Vec<String> = Vec::new();
    let mut action = h.handle(Event::CompletionReturned(vec!["ignored".to_string(), reply.clone()]), &c);
    loop {
        match action {
            Action::SendChunk { text, .. } => {
                sent.push(text);
                action = h.handle(Event::ChunkSent, &c);
            },
            Action::Finish => break,
            _ => panic!("unexpected action"),
        }
    }
    let lens: Vec<usize> = sent.iter().map(|s| s.chars().count()).collect();
    assert_eq!(lens, vec![2000, 2000, 500]);
    assert_eq!(sent.concat(), reply);
}

#[test]
fn empty_prompt_source_fails_without_requests() {
    let c = config();
    let (mut h, a) = start(1, 200);
    assert!(matches!(a, Action::FetchPrompt { source: 30 }));
    assert!(matches!(h.handle(Event::PromptFetched(Vec::new()), &c), Action::Abort(RelayError::PromptResolutionFailure)));
    assert_eq!(h.phase(), Phase::Failed(RelayError::PromptResolutionFailure));
    assert!(matches!(h.handle(Event::HistoryFetched(history()), &c), Action::Finish));
    assert!(matches!(h.handle(Event::CompletionReturned(vec!["x".to_string()]), &c), Action::Finish));
}

#[test]
fn dynamic_prompt_uses_newest_message_verbatim() {
    let c = config();
    let (mut h, _) = start(1, 200);
    let prompt = vec!["  Answer in French. ".to_string(), "older".to_string()];
    assert!(matches!(h.handle(Event::PromptFetched(prompt), &c), Action::FetchHistory { thread: 200, limit: 100 }));
    match h.handle(Event::HistoryFetched(Vec::new()), &c) {
        Action::RequestCompletion(req) => {
            assert_eq!(req.messages.len(), 1);
            assert_eq!(req.messages[0].text, "  Answer in French. ");
        },
        _ => panic!("expected a completion request"),
    }
}

#[test]
fn unregistered_container_is_left_alone() {
    let (h, a) = start(1, 101);
    assert!(matches!(a, Action::Finish));
    assert_eq!(h.phase(), Phase::Done);
    let (_, a) = start(1, 555);
    assert!(matches!(a, Action::Finish));
}

#[test]
fn own_messages_are_never_answered() {
    let c = config();
    let (mut h, a) = start(RELAY, THREAD_T);
    assert!(matches!(a, Action::Finish));
    assert!(matches!(h.handle(Event::HistoryFetched(history()), &c), Action::Finish));
    assert!(matches!(classify(IncomingMessage { author_id: RELAY, channel_id: THREAD_T }, RELAY, &threads(), &directory()), Route::Ignore));
}

#[test]
fn classify_picks_the_rule_of_the_thread_container() {
    let dir = directory();
    match classify(IncomingMessage { author_id: 1, channel_id: THREAD_T }, RELAY, &threads(), &dir) {
        Route::Instruction(t) => assert_eq!(t, "Be concise."),
        _ => panic!("expected a literal instruction"),
    }
    assert!(matches!(classify(IncomingMessage { author_id: 1, channel_id: 200 }, RELAY, &threads(), &dir), Route::FetchPrompt(30)));
}

#[test]
fn history_limit_keeps_newest_messages() {
    let ctx = assemble_context("sys".to_string(), &history(), 2, RELAY);
    let texts: Vec<&str> = ctx.iter().map(|e| e.text.as_str()).collect();
    assert_eq!(texts, vec!["sys", "answer", "third"]);
    assert_eq!(ctx[1].role, Role::System);
}

#[test]
fn context_of_empty_history_is_instruction_alone() {
    let ctx = assemble_context("sys".to_string(), &Vec::new(), 100, RELAY);
    assert_eq!(ctx.len(), 1);
    assert_eq!(ctx[0].role, Role::System);
}

#[test]
fn roles_follow_authorship() {
    assert_eq!(message_role(RELAY, RELAY), Role::System);
    assert_eq!(message_role(1, RELAY), Role::User);
}

#[test]
fn each_failure_is_reported() {
    let c = config();
    let (mut h, _) = start(1, 200);
    assert!(matches!(h.handle(Event::PromptFetchFailed, &c), Action::Abort(RelayError::PromptResolutionFailure)));

    let (mut h, _) = start(1, THREAD_T);
    assert!(matches!(h.handle(Event::HistoryFetchFailed, &c), Action::Abort(RelayError::HistoryFetchFailure)));

    let (mut h, _) = start(1, THREAD_T);
    h.handle(Event::HistoryFetched(history()), &c);
    assert!(matches!(h.handle(Event::CompletionFailed, &c), Action::Abort(RelayError::CompletionServiceFailure)));

    let (mut h, _) = start(1, THREAD_T);
    h.handle(Event::HistoryFetched(history()), &c);
    let long: String = std::iter::repeat('z').take(3000).collect();
    h.handle(Event::CompletionReturned(vec![long]), &c);
    assert!(matches!(h.handle(Event::ChunkFailed, &c), Action::Abort(RelayError::DeliveryFailure)));
    assert_eq!(h.phase(), Phase::Failed(RelayError::DeliveryFailure));
    assert!(matches!(h.handle(Event::ChunkSent, &c), Action::Finish));
}

#[test]
fn empty_reply_sends_nothing() {
    let c = config();
    let (mut h, _) = start(1, THREAD_T);
    h.handle(Event::HistoryFetched(history()), &c);
    assert!(matches!(h.handle(Event::CompletionReturned(Vec::new()), &c), Action::Finish));
    assert_eq!(h.phase(), Phase::Done);
}

#[test]
fn stray_event_changes_nothing() {
    let c = config();
    let (mut h, _) = start(1, THREAD_T);
    assert!(matches!(h.handle(Event::ChunkSent, &c), Action::Wait));
    assert_eq!(h.phase(), Phase::AwaitingHistory);
}
