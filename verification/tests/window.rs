use gguf::gui::app::{GgufApp, StreamingTarget, Tab};
use gguf::gui::chat_view::ChatView;
use gguf::gui::inference::{
    handle_command, load_error, run_message, value_to_string, InferMsg, LoadedInfo, Plan, UiCommand,
};
use gguf::gui::model_view::{matching, ModelView};
use gguf::gui::prompt_view::PromptView;
use gguf::gui::settings::SettingsPanel;
use gguf::gui::state::{AppState, ModelSummary, Role};
use gguf::infer::sampler::SamplerConfig;
use gguf::types::Piece;
use gguf::{GgufArray, GgufError, GgufType, GgufValue};

fn row(a: &str, b: &str, c: &str) -> (String, String, String) {
    (a.to_string(), b.to_string(), c.to_string())
}

fn info() -> LoadedInfo {
    LoadedInfo {
        name: "Name".to_string(),
        arch: "qwen2".to_string(),
        model_name: "Name".to_string(),
        layers: 2,
        embed_dim: 4,
        vocab_size: 3,
        load_ms: 12,
        tensor_count: 1,
        kv_count: 2,
        gguf_version: 3,
        alignment: 32,
        data_offset: 64,
        file_size: 3 * 1024 * 1024,
        ctx_limit: 128,
        kv_data: vec![row("General.Name", "string", "say \"hi\""), row("other", "u32", "1")],
        tensor_data: vec![row("w", "[4]", "F32")],
        vocab: vec!["a".to_string(), "b".to_string(), "ab".to_string()],
    }
}

fn loaded() -> GgufApp {
    let mut app = GgufApp::new();
    app.handle_infer_msg(InferMsg::ModelLoaded(info()), 0);
    app
}

fn token(text: &str) -> InferMsg {
    InferMsg::Token { id: 1, text: text.to_string() }
}

fn done(text: &str) -> InferMsg {
    InferMsg::Done {
        full_text: text.to_string(),
        elapsed_ms: 99,
        ctx_len: 7,
        ctx_limit: 128,
        token_count: 0,
    }
}

fn said(app: &GgufApp) -> Vec<(Role, &str)> {
    app.chat.messages.iter().map(|m| (m.role, m.content.as_str())).collect()
}

#[test]
fn new_window_is_idle() {
    let app = GgufApp::new();
    assert_eq!(app.app_state, AppState::Idle);
    assert_eq!(app.app_state.label(), "⚪ 未加载模型");
    assert_eq!(app.tab, Tab::Chat);
    assert_eq!(Tab::Model.label(), "模型信息");
    assert_eq!(Role::User.label(), "用户");
    assert_eq!(app.streaming_target, StreamingTarget::Nowhere);
    let s = SettingsPanel::default();
    assert_eq!(f32::from_bits(s.temperature), 0.8);
    assert_eq!(f32::from_bits(s.top_p), 0.95);
    assert_eq!(f32::from_bits(s.repeat_penalty), 1.1);
    assert_eq!((s.top_k, s.max_tokens, s.seed), (40, 512, 0));
}

#[test]
fn commands_need_a_model() {
    let sampler = SamplerConfig::default();
    let chat = || UiCommand::Chat { text: "x".to_string(), max_tokens: 1, sampler };
    assert!(matches!(handle_command(chat(), true), Plan::Answer { .. }));
    match handle_command(chat(), false) {
        Plan::Refuse(m) => assert_eq!(m, "模型未加载"),
        other => panic!("{other:?}"),
    }
    assert!(matches!(handle_command(UiCommand::Reset, false), Plan::Nothing));
    assert!(matches!(handle_command(UiCommand::Reset, true), Plan::Forget));
    assert!(matches!(handle_command(UiCommand::Quit, true), Plan::Nothing));
    assert!(matches!(handle_command(UiCommand::Unload, true), Plan::Release));
    assert!(matches!(handle_command(UiCommand::Unload, false), Plan::Nothing));
    let load = UiCommand::LoadModel { path: "p".to_string(), sampler };
    assert!(matches!(handle_command(load, false), Plan::Load { .. }));
}

#[test]
fn loading_shows_the_model() {
    let mut app = GgufApp::new();
    match app.load_model("m.gguf".to_string()) {
        UiCommand::LoadModel { path, .. } => assert_eq!(path, "m.gguf"),
        other => panic!("{other:?}"),
    }
    assert_eq!(app.app_state, AppState::Loading);
    app.handle_infer_msg(InferMsg::ModelLoaded(info()), 0);
    assert_eq!(app.app_state, AppState::Ready);
    assert_eq!(app.model_name, "Name");
    assert_eq!(app.stats.ctx_limit, 128);
    assert_eq!(app.model.summary_lines()[0], "文件名: Name");
    assert_eq!(app.model.summary_lines()[6], "文件大小: 3.0 MB");
    assert_eq!(app.model.summary_lines().len(), 13);
    assert!(app.model.summary_text().contains("加载耗时: 12 ms"));
    assert!(matches!(app.unload(), UiCommand::Unload));
    assert_eq!(app.app_state, AppState::Idle);
    assert!(app.model.summary_lines().is_empty());
    assert_eq!(app.model.export_json(), "{}");
}

#[test]
fn failed_loading_is_shown() {
    let mut app = GgufApp::new();
    app.load_model("m.gguf".to_string());
    app.handle_infer_msg(load_error(&GgufError::UnsupportedVersion(9)), 0);
    assert_eq!(app.app_state, AppState::Error);
    assert_eq!(app.error_msg, "unsupported GGUF version: 9 (expected 3)");
}

#[test]
fn dialogue_is_written_as_it_comes() {
    let mut app = loaded();
    app.chat.input = " hi ".to_string();
    match app.send_input() {
        Some(UiCommand::Chat { text, max_tokens, .. }) => {
            assert_eq!(text, "hi");
            assert_eq!(max_tokens, 512);
        }
        other => panic!("{other:?}"),
    }
    assert_eq!(app.chat.input, "");
    assert!(ChatView::is_generating(app.app_state, app.streaming_target));
    app.handle_infer_msg(token("he"), 1);
    app.handle_infer_msg(token("llo"), 2);
    assert_eq!(said(&app), [(Role::User, "hi"), (Role::Assistant, "hello")]);
    app.handle_infer_msg(done("hello"), 50);
    assert_eq!(app.app_state, AppState::Ready);
    assert_eq!(app.stats.tokens, 2);
    assert_eq!(app.stats.elapsed_ms, 50);
    assert_eq!(app.stats.ctx_len, 7);
    assert_eq!(app.settings.stats, app.stats);
    // A late piece goes nowhere.
    app.handle_infer_msg(token("!"), 0);
    assert_eq!(said(&app)[1].1, "hello");
    app.reset_chat();
    assert!(app.chat.messages.is_empty());
    app.handle_infer_msg(InferMsg::ResetDone, 0);
    assert_eq!(app.stats.elapsed_ms, 0);
}

#[test]
fn blank_messages_are_not_sent() {
    let mut app = loaded();
    assert!(app.send_chat(" \n").is_none());
    assert!(app.send_input().is_none());
    assert!(app.send_prompt().is_none());
    assert_eq!(app.app_state, AppState::Ready);
}

#[test]
fn prompts_are_shown_at_once_or_at_the_end() {
    let mut app = loaded();
    app.prompt.input_text = " once ".to_string();
    app.prompt.greedy = true;
    match app.send_prompt() {
        Some(UiCommand::Prompt { text, sampler, stream, .. }) => {
            assert_eq!(text, "once");
            assert_eq!(sampler.top_k, 0);
            assert!(!stream);
        }
        other => panic!("{other:?}"),
    }
    app.handle_infer_msg(done("once upon"), 3);
    assert_eq!(app.prompt.output, "once upon");
    app.prompt.stream = true;
    app.send_prompt().unwrap();
    assert_eq!(app.prompt.output, "");
    assert_eq!(PromptView::buttons(app.app_state, app.streaming_target), (false, true));
    app.handle_infer_msg(token(" a time"), 3);
    assert_eq!(app.prompt.output, " a time");
    assert_eq!(app.status(), "🟡 生成中");
    app.handle_infer_msg(InferMsg::Stopped, 3);
    assert_eq!(app.status(), "已停止");
    assert_eq!(PromptView::buttons(app.app_state, app.streaming_target), (true, false));
}

#[test]
fn errors_end_a_run() {
    let mut app = loaded();
    app.send_chat("hi").unwrap();
    let e: Result<String, GgufError> = Err(GgufError::InferenceError("上下文超出: x".to_string()));
    app.handle_infer_msg(run_message(&chat_plan(), e, false, 1, 0, 0), 1);
    assert_eq!(app.app_state, AppState::Error);
    assert!(app.chat.ctx_exceeded);
    assert_eq!(said(&app)[1].1, format!("\n⚠️ {}", app.error_msg));
    assert_eq!(app.streaming_target, StreamingTarget::Nowhere);
}

fn prompt_plan() -> Plan {
    Plan::Complete {
        text: "x".to_string(),
        max_tokens: 9,
        sampler: SamplerConfig::default(),
        stream: true,
    }
}

fn chat_plan() -> Plan {
    Plan::Answer { text: "x".to_string(), max_tokens: 9, sampler: SamplerConfig::default() }
}

#[test]
fn runs_end_with_a_message() {
    let text = || Ok("x".to_string());
    assert!(matches!(run_message(&chat_plan(), text(), true, 1, 2, 3), InferMsg::Stopped));
    for (plan, count) in [(prompt_plan(), 9), (chat_plan(), 0)] {
        match run_message(&plan, text(), false, 1, 2, 3) {
            InferMsg::Done { full_text, elapsed_ms, ctx_len, ctx_limit, token_count } => {
                assert_eq!(full_text, "x");
                assert_eq!((elapsed_ms, ctx_len, ctx_limit, token_count), (1, 2, 3, count));
            }
            other => panic!("{other:?}"),
        }
    }
}

#[test]
fn values_are_shown_in_cells() {
    let list = GgufValue::Array(GgufArray {
        elem_type: GgufType::Uint8,
        data: (0..9).map(GgufValue::U8).collect(),
    });
    let text: String = value_to_string(&list)
        .into_iter()
        .map(|p| match p {
            Piece::Text(s) => s,
            Piece::Number(b) => format!("{:.4}", f64::from_bits(b)),
        })
        .collect();
    assert_eq!(text, "[0, 1, 2, 3, 4, 5, 6, 7, ...]");
    assert_eq!(
        value_to_string(&GgufValue::F32(0.5f32.to_bits())),
        vec![Piece::Number(0.5f64.to_bits())]
    );
    assert_eq!(value_to_string(&GgufValue::I32(-3)), vec![Piece::Text("-3".to_string())]);
}

#[test]
fn pairs_are_searched_in_any_case() {
    let mut app = loaded();
    assert_eq!(app.model.listed_pairs(), vec![0, 1]);
    app.model.kv_search = "GENERAL".to_string();
    assert_eq!(app.model.listed_pairs(), vec![0]);
    assert_eq!(
        app.model.pair_lines(),
        vec![format!("{:<50} {:<10} {}", "General.Name", "string", "say \"hi\"")]
    );
    app.model.kv_search = "zzz".to_string();
    assert_eq!(app.model.pair_lines(), vec!["(无匹配项)".to_string()]);
    assert_eq!(matching(&vec!["abc".to_string(), "b".to_string()], "b"), vec![0, 1]);
}

#[test]
fn tensors_are_listed_up_to_a_limit() {
    let mut m = ModelView::default();
    m.tensor_data = (0..52).map(|i| row(&format!("t{i}"), "[1]", "F32")).collect();
    let lines = m.tensor_lines();
    assert_eq!(lines.len(), 51);
    assert_eq!(lines[0], format!("{:<50} {:<25} {}", "t0", "[1]", "F32"));
    assert_eq!(lines[50], "... 还有 2 个张量 (勾选\"显示全部\"查看)");
    assert_eq!(m.tensors_label(), "显示全部 (当前前 50)");
    m.show_all_tensors = true;
    assert_eq!(m.tensor_lines().len(), 52);
    assert_eq!(m.tensors_label(), "显示全部");
    assert_eq!(ModelView::pair_heading(), format!("{:<50} {:<10} {}", "键", "类型", "值"));
    assert_eq!(ModelView::tensor_heading(), format!("{:<50} {:<25} {}", "名称", "形状", "类型"));
}

#[test]
fn vocabulary_answers_questions() {
    let mut app = loaded();
    app.model.token_id_query = "2".to_string();
    app.model.query_tokens();
    assert_eq!(app.model.token_result, "ID=2  字符串=\"ab\"");
    app.model.token_id_query = "3".to_string();
    app.model.query_tokens();
    assert_eq!(app.model.token_result, "未找到");
    app.model.token_id_query = "x".to_string();
    app.model.query_tokens();
    assert_eq!(app.model.token_result, "未找到");
    app.model.token_id_query = String::new();
    app.model.token_str_query = "b".to_string();
    app.model.query_tokens();
    assert_eq!(app.model.token_result, "ID=1  字符串=\"b\"");
}

#[test]
fn export_is_json() {
    let app = loaded();
    let json: serde_json::Value = serde_json::from_str(&app.model.export_json()).unwrap();
    assert_eq!(json["summary"]["arch"], "qwen2");
    assert_eq!(json["summary"]["load_ms"], 12);
    assert_eq!(json["kv"][0]["value"], "say \"hi\"");
    assert_eq!(json["tensors"][0]["shape"], "[4]");
    assert_eq!(json["kv"].as_array().unwrap().len(), 2);
    let mut m = loaded().model;
    m.kv_data = vec![row("\"\\\u{8}\t\n\u{c}\r\u{1f}\u{7f}中", "", "")];
    let text = m.export_json();
    assert!(text.contains("{\"key\": \"\\\"\\\\\\b\\t\\n\\f\\r\\u001f\u{7f}中\", "));
}

#[test]
fn copies_are_the_same() {
    let app = loaded();
    let summary = app.model_summary.clone().unwrap();
    assert_eq!((summary.name.as_str(), summary.load_ms), ("Name", 12));
    let none = ModelSummary::default();
    assert_eq!((none.name.as_str(), none.file_size), ("", 0));
    assert_eq!(StreamingTarget::default(), StreamingTarget::Nowhere);
    let list = GgufValue::Array(GgufArray {
        elem_type: GgufType::String,
        data: vec![GgufValue::String("a".to_string()), GgufValue::String("b".to_string())],
    });
    assert_eq!(list.clone(), list);
    assert_eq!(list.as_array().unwrap().clone(), *list.as_array().unwrap());
    match InferMsg::ModelLoaded(info()).clone() {
        InferMsg::ModelLoaded(l) => assert_eq!(l.vocab.len(), 3),
        other => panic!("{other:?}"),
    }
}
