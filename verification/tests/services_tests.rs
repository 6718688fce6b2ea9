use turingosv3::drivers::llm_http::{
    api_key_variables, assemble_reply, generation_settings, read_reply, system_message, DriverError, ResilientLLMClient,
};
use turingosv3::maker_milestone::{answer_correct, count_steps, milestone_verdict, parse_args};
use turingosv3::prediction_market::{payout_for, resolve_outcome, trading_open, Payout};
use turingosv3::sdk::sandbox::LocalProcessSandbox;
use turingosv3::sdk::tools::librarian::{categorize, failure_record, memory_document, merge_memory, rejection_reason, success_record, LibrarianTool};
use turingosv3::sdk::tools::search::{format_search_results, sanitize_query, SearchTool};
use turingosv3::text::{decimal_string, parse_u32};

#[test]
fn key_variables_by_provider() {
    assert_eq!(api_key_variables("https://ark.volces.com/api"), vec!["VOLCENGINE_API_KEY", "SILICONFLOW_API_KEY"]);
    assert_eq!(api_key_variables("https://api.deepseek.com/v1"), vec!["DEEPSEEK_API_KEY"]);
    assert_eq!(api_key_variables("http://localhost:8080"), vec!["SILICONFLOW_API_KEY", "VOLCENGINE_API_KEY"]);
}

#[test]
fn generation_settings_follow_thinking_mode() {
    assert_eq!(generation_settings("qwen3-8b", "on"), ("", 3072));
    assert_eq!(generation_settings("qwen3-8b", "budget:800"), ("", 800));
    assert_eq!(generation_settings("qwen3-8b", "budget:lots"), ("", 1500));
    assert_eq!(generation_settings("qwen3-8b", "off"), ("/no_think\n", 3072));
    assert_eq!(generation_settings("deepseek", "on"), ("", 3072));
    assert_eq!(system_message("/no_think\n"), "/no_think\nYou are a reasoning agent. Follow all formatting instructions exactly.");
}

#[test]
fn client_accessors_and_thinking_switch() {
    let c = ResilientLLMClient::with_key("http://dashscope.local", "qwen3-32b", "k");
    assert_eq!(c.model_name(), "qwen3-32b");
    assert_eq!(c.api_key(), &Some("k".to_string()));
    assert!(c.disable_thinking("off"));
    assert!(!c.disable_thinking("on"));
}

#[test]
fn reply_assembly() {
    assert_eq!(assemble_reply(Some("why"), Some("answer")).unwrap(), "why\nanswer");
    assert_eq!(assemble_reply(Some(""), Some("answer")).unwrap(), "answer");
    assert!(matches!(assemble_reply(None, Some("")), Err(DriverError::JsonParseError)));
}

#[test]
fn api_error_wins_over_choices() {
    match read_reply(Some(Some("quota exceeded")), None, Some("answer")) {
        Err(DriverError::BackendError(m)) => assert_eq!(m, "quota exceeded"),
        _ => panic!("expected a backend error"),
    }
    match read_reply(Some(None), None, None) {
        Err(DriverError::BackendError(m)) => assert_eq!(m, "unknown"),
        _ => panic!("expected a backend error"),
    }
    assert_eq!(read_reply(None, Some("why"), Some("answer")).unwrap(), "why\nanswer");
    assert!(matches!(read_reply(None, None, None), Err(DriverError::JsonParseError)));
}

#[test]
fn u32_parsing_and_decimal() {
    assert_eq!(parse_u32("+42"), Some(42));
    assert_eq!(parse_u32("4294967295"), Some(u32::MAX));
    assert_eq!(parse_u32("4294967296"), None);
    assert_eq!(parse_u32(""), None);
    assert_eq!(parse_u32("-1"), None);
    assert_eq!(decimal_string(1_000_000), "1000000");
}

#[test]
fn librarian_records_and_memory() {
    let mut l = LibrarianTool::new("skills", 3, 25, "logs");
    assert_eq!(l.compress_interval(), 25);
    assert_eq!(l.log_dir(), "logs");
    l.note_compression();
    assert_eq!(l.compressions_done(), 1);
    assert_eq!(success_record("n1", "A", "say \"hi\"\nnow", 7), "{\"node_id\":\"n1\",\"author\":\"A\",\"payload\":\"say 'hi' now\",\"ts\":7}");
    let f = failure_record("A", "p", "Bankrupt: Liquidated", 9);
    assert_eq!(rejection_reason(&f), Some("Bankrupt: Liquidated".to_string()));
    assert_eq!(categorize("Bankrupt: Liquidated"), "Bankrupt agent");
    assert_eq!(categorize("Step too short (3 chars)"), "Step too short");
    assert_eq!(categorize("x".repeat(50).as_str()), "x".repeat(40));
    assert_eq!(memory_document("<think>draft</think>  final  "), "\n# LIBRARIAN MEMORY (compressed from tape by DeepSeek V3)\n\nfinal");
    assert_eq!(merge_memory("base\n# LIBRARIAN MEMORY old", "\nNEW"), "base\nNEW");
    assert_eq!(merge_memory("base", "\nNEW"), "base\nNEW");
    let doc = memory_document("<think>x</think> keep going");
    for start in ["", "role notes\n", "notes\n# LIBRARIAN MEMORY old\nstale", "ends with \n# LIB"] {
        let once = merge_memory(start, &doc);
        assert_eq!(merge_memory(&once, &doc), once);
    }
}

#[test]
fn search_query_and_report() {
    let t = SearchTool::new(vec!["/lib".to_string()]);
    assert_eq!(t.max_results, 10);
    assert_eq!(t.timeout, std::time::Duration::from_secs(5));
    assert_eq!(sanitize_query("riemann;Zeta()_1"), Some("riemannZeta_1".to_string()));
    assert_eq!(sanitize_query("$$$"), None);
    assert_eq!(sanitize_query(&"a".repeat(101)), None);
    assert_eq!(format_search_results("q", &vec![], 10), "[SEARCH 'q': no results]\n");
    let rs = vec!["a.lean".to_string(), "b.lean".to_string(), "c.lean".to_string()];
    assert_eq!(format_search_results("q", &rs, 2), "[SEARCH 'q': 3 files found]\n  a.lean\n  b.lean\n");
}

#[test]
fn milestone_reading() {
    let args: Vec<String> = ["bin", "--trace", "t1", "--answer", "a", "--trace", "t2"].iter().map(|s| s.to_string()).collect();
    assert_eq!(parse_args(&args), (Some("t2".to_string()), Some("a".to_string())));
    assert_eq!(parse_args(&vec!["--trace".to_string()]), (None, None));
    assert_eq!(count_steps("a\n\n  \nb\r\nc"), 3);
    assert!(answer_correct("{\"final_answer_correct\": true}"));
    assert!(!answer_correct("{\"final_answer_correct\": false, \"pass\": true}"));
    assert!(answer_correct("{\"verdict\": \" success \"}"));
    assert!(answer_correct("final_answer_correct=true"));
    assert!(answer_correct(" pass "));
    assert!(!answer_correct("   "));
    let (reached, pass, notes) = milestone_verdict(true, false, 10, 1_000_000, false);
    assert!(!reached && !pass);
    assert_eq!(notes, vec![
        "Answer verdict file missing. Provide --answer or TURINGOS_MAKER_ANSWER.".to_string(),
        "Step threshold not met: observed=10, required=1000000. Continue hardening and rerun.".to_string(),
        "Final answer correctness proof missing or failed.".to_string(),
    ]);
}

#[test]
fn market_resolution_is_final() {
    let once = resolve_outcome(None, true);
    assert_eq!(once, Some(true));
    assert_eq!(resolve_outcome(once, false), Some(true));
    assert_eq!(payout_for(Some(false)), Payout::NoShares);
    assert_eq!(payout_for(None), Payout::Nothing);
    assert!(trading_open(None));
    assert!(!trading_open(Some(true)));
}

#[test]
fn sandbox_command() {
    let s = LocalProcessSandbox::new("lake", vec!["env".to_string(), "lean".to_string()]);
    assert_eq!(s.compiler_cmd(), "lake");
    assert_eq!(s.args().len(), 2);
}
