use budgy::llm::chat_with_context_prompt;
use budgy::llm::financial_context;
use budgy::llm::next_wait_action;
use budgy::llm::receipt_extraction_message;
use budgy::llm::receipt_json_text;
use budgy::llm::server_args;
use budgy::llm::server_url;
use budgy::llm::wait_progress_message;
use budgy::llm::WaitAction;
use budgy::llm::CHAT_COMPLETIONS_PATH;
use budgy::llm::MODELS_PATH;
use budgy::llm::RECEIPT_PROMPT;

#[test]
fn server_addresses() {
    assert_eq!(server_url(MODELS_PATH), "http://127.0.0.1:8080/v1/models");
    assert_eq!(server_url(CHAT_COMPLETIONS_PATH), "http://127.0.0.1:8080/v1/chat/completions");
}

#[test]
fn server_command_line() {
    assert_eq!(
        server_args("/data/model.gguf"),
        vec!["-m", "/data/model.gguf", "--host", "127.0.0.1", "--port", "8080", "-c", "2048", "-ngl", "99"]
    );
}

#[test]
fn waiting_gives_up_after_sixty_checks() {
    assert_eq!(next_wait_action(0, true), WaitAction::Ready);
    assert_eq!(next_wait_action(0, false), WaitAction::SleepAndRetry { checks_done: 1 });
    assert_eq!(next_wait_action(58, false), WaitAction::SleepAndRetry { checks_done: 59 });
    assert_eq!(next_wait_action(59, false), WaitAction::SleepAndGiveUp);
    assert_eq!(next_wait_action(59, true), WaitAction::Ready);
    let mut attempt = 0;
    let mut checks = 0;
    loop {
        checks += 1;
        match next_wait_action(attempt, false) {
            WaitAction::Ready => panic!("never ready"),
            WaitAction::SleepAndRetry { checks_done } => attempt = checks_done,
            WaitAction::SleepAndGiveUp => break,
        }
    }
    assert_eq!(checks, 60);
    assert_eq!(wait_progress_message(3), "Waiting for llama-server to start... (3/60)");
}

#[test]
fn chat_prompt_puts_question_after_context() {
    assert_eq!(
        chat_with_context_prompt("Can I afford it?", "- Total spending: PHP 10.00"),
        "You are a helpful financial assistant. Here is the user's financial context:\n- Total spending: PHP 10.00\n\nUser question: Can I afford it?"
    );
}

#[test]
fn financial_context_with_and_without_top_category() {
    assert_eq!(
        financial_context("1200.50", "300.00", Some(("Food", "800.25"))),
        "User's financial snapshot (last 30 days):\n- Total spending: PHP 1200.50\n- Monthly subscriptions: PHP 300.00\n- Top spending category: Food (PHP 800.25)\nAnswer user questions based on this context."
    );
    assert_eq!(
        financial_context("0.00", "0.00", None),
        "User's financial snapshot (last 30 days):\n- Total spending: PHP 0.00\n- Monthly subscriptions: PHP 0.00\nAnswer user questions based on this context."
    );
}

#[test]
fn receipt_message_truncates_long_images() {
    let short = "aGVsbG8=";
    assert_eq!(
        receipt_extraction_message(short),
        format!("{}\n\n[Receipt image base64: {}]", RECEIPT_PROMPT, short)
    );
    let long = "A".repeat(250);
    assert_eq!(
        receipt_extraction_message(&long),
        format!("{}\n\n[Receipt image base64: {}... [truncated]]", RECEIPT_PROMPT, "A".repeat(200))
    );
    let exactly = "B".repeat(200);
    assert_eq!(
        receipt_extraction_message(&exactly),
        format!("{}\n\n[Receipt image base64: {}]", RECEIPT_PROMPT, exactly)
    );
    assert!(RECEIPT_PROMPT.starts_with("You are a receipt parser."));
}

#[test]
fn receipt_answers_lose_their_fences() {
    assert_eq!(receipt_json_text("  ```json\n{\"total\": 5}\n```  "), "{\"total\": 5}");
    assert_eq!(receipt_json_text("```\n{\"total\": 5}"), "{\"total\": 5}");
    assert_eq!(receipt_json_text("```\n{}\n```"), "{}\n```");
    assert_eq!(receipt_json_text(" {\"total\": 5} \n"), "{\"total\": 5}");
    assert_eq!(receipt_json_text("```json {} "), "json {}");
}
