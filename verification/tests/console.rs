use gguf::console::{
    banner, checked_prompt, exit_code_for, line_is_complete, loaded_line, next_step, read_line,
    ready_line, reply_end, sampler_config, status_line, strip_breaks, Line, Step,
};
use gguf::infer::model::hparams::HParams;
use gguf::infer::sampler::SamplerConfig;
use gguf::GgufError;

fn sizes() -> HParams {
    HParams {
        arch: "llama".to_string(),
        vocab_size: 32000,
        embed_dim: 4096,
        n_heads: 32,
        n_kv_heads: 8,
        ffn_dim: 11008,
        n_layers: 28,
        rope_freq_base: 10000.0f64.to_bits(),
        context_length: 2048,
        pre_norm: true,
    }
}

#[test]
fn exit_codes_of_a_run() {
    assert_eq!(exit_code_for(&GgufError::Io("x".into())), 1);
    assert_eq!(exit_code_for(&GgufError::InvalidMagic(0)), 2);
    assert_eq!(exit_code_for(&GgufError::UnsupportedVersion(9)), 3);
    assert_eq!(exit_code_for(&GgufError::UnsupportedArchitecture("bert".into())), 4);
    assert_eq!(exit_code_for(&GgufError::TokenizerError("x".into())), 5);
    assert_eq!(
        exit_code_for(&GgufError::MissingTensor { name: "x".into(), kind: "tensor" }),
        6
    );
    assert_eq!(exit_code_for(&GgufError::InferenceError("x".into())), 7);
}

#[test]
fn greedy_overrides_the_settings() {
    let given = SamplerConfig { seed: 5, ..SamplerConfig::default() };
    assert_eq!(sampler_config(false, given), given);
    let greedy = sampler_config(true, given);
    assert_eq!(f32::from_bits(greedy.temperature), 0.0);
    assert_eq!(greedy.top_k, 0);
    assert_eq!(f32::from_bits(greedy.top_p), 1.0);
    assert_eq!(f32::from_bits(greedy.min_p), 0.0);
    assert_eq!(f32::from_bits(greedy.repeat_penalty), 1.0);
    assert_eq!(greedy.seed, 5);
}

#[test]
fn prompts_are_trimmed() {
    assert_eq!(checked_prompt("  hi there\n").unwrap(), "hi there");
    match checked_prompt(" \u{3000}\t\r\n") {
        Err(GgufError::InferenceError(m)) => assert_eq!(m, "prompt 为空"),
        other => panic!("{other:?}"),
    }
}

#[test]
fn lines_are_commands_or_messages() {
    assert_eq!(read_line("  \n"), Line::Blank);
    assert_eq!(read_line(":quit\r\n"), Line::Quit);
    assert_eq!(read_line(" :q "), Line::Quit);
    assert_eq!(read_line(":reset\n"), Line::Reset);
    assert_eq!(read_line(":resets\n"), Line::Ask(":resets".to_string()));
    assert_eq!(read_line(" 你好 \n"), Line::Ask("你好".to_string()));
}

#[test]
fn dialogue_goes_on_until_its_end() {
    assert_eq!(next_step(None), Step::End(String::new()));
    assert_eq!(next_step(Some("\n")), Step::Again);
    assert_eq!(next_step(Some(":q\n")), Step::End("退出。\n".to_string()));
    assert_eq!(next_step(Some(":reset")), Step::Forget("[上下文已清空]\n".to_string()));
    assert_eq!(next_step(Some("hi\n")), Step::Answer("hi".to_string()));
    assert!(banner().contains(":reset 清空上下文"));
    assert_eq!((reply_end(true), reply_end(false)), ("\n", "\n\n"));
}

#[test]
fn status_says_how_a_turn_went() {
    assert_eq!(status_line(&Ok(()), false, "12ms", 5, 9), "  [耗时 12ms]\n");
    assert_eq!(status_line(&Ok(()), true, "12ms", 5, 9), "  [耗时 12ms, ctx 5/9]\n");
    let e = GgufError::InferenceError("boom".into());
    let text = e.to_string();
    assert_eq!(status_line(&Err(e), true, "", 0, 0), format!("  错误: {text}\n"));
    let e = GgufError::InferenceError("上下文超出: x".into());
    let text = e.to_string();
    assert_eq!(
        status_line(&Err(e), false, "", 0, 0),
        format!("  错误: {text}\n  提示: 输入 :reset 清空上下文后重新提问\n")
    );
}

#[test]
fn models_are_announced() {
    assert_eq!(
        loaded_line(Some("llama"), &sizes(), 3 * 1024 * 1024, "1.50s"),
        "  架构=llama  层数=28  隐藏维度=4096  词表=32000  大小=3.0 MB  耗时=1.50s"
    );
    assert!(loaded_line(None, &sizes(), 7, "1ms").starts_with("  架构=?  "));
    assert_eq!(
        ready_line(&sizes()),
        "引擎就绪 (embed=4096, heads=32, kv_heads=8, ffn=11008, ctx=2048)"
    );
}

#[test]
fn wide_lines_are_put_together() {
    let mut line = vec![0x68u16, 0x69, 0x0d, 0x0a];
    assert!(line_is_complete(&line));
    strip_breaks(&mut line);
    assert_eq!(line, vec![0x68, 0x69]);
    assert!(!line_is_complete(&line));
    assert!(!line_is_complete(&vec![0x41u16; 65536]));
    assert!(line_is_complete(&vec![0x41u16; 65537]));
    let mut breaks = vec![0x0au16, 0x0d];
    strip_breaks(&mut breaks);
    assert!(breaks.is_empty());
}
