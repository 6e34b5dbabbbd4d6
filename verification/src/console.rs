//! The dialogue on a console: what is typed and what is answered.
use vstd::prelude::*;
use vstd::string::*;
use crate::error::{error_text, ErrorView, GgufError, GgufResult};
use crate::sizes::{human_size, size_text};
use crate::text::{concat, contains, dec, has_part, owned, push_dec, same, trim, trimmed};
use crate::infer::model::hparams::{HParams, HParamsView};
use crate::infer::sampler::SamplerConfig;

verus! {

/// The process's exit code for an error: 1 for files that cannot be read, 2 for files of another
/// kind, 3 for other versions, 4 for architectures that are not run, 5 for vocabularies, 6 for
/// missing tensors, 7 for anything else.
pub open spec fn infer_exit_code(e: ErrorView) -> u8 {
    match e {
        ErrorView::Io(_) => 1,
        ErrorView::InvalidMagic(_) => 2,
        ErrorView::UnsupportedVersion(_) => 3,
        ErrorView::UnsupportedArchitecture(_) => 4,
        ErrorView::TokenizerError(_) => 5,
        ErrorView::MissingTensor { .. } => 6,
        _ => 7,
    }
}

/// The process's exit code for an error.
pub fn exit_code_for(e: &GgufError) -> (r: u8)
    ensures
        r == infer_exit_code(e@),
{
    match e {
        GgufError::Io(_) => 1,
        GgufError::InvalidMagic(_) => 2,
        GgufError::UnsupportedVersion(_) => 3,
        GgufError::UnsupportedArchitecture(_) => 4,
        GgufError::TokenizerError(_) => 5,
        GgufError::MissingTensor { .. } => 6,
        _ => 7,
    }
}

/// The settings that always take the likeliest token.
pub open spec fn greedy_config(seed: u64) -> SamplerConfig {
    SamplerConfig {
        temperature: 0,
        top_k: 0,
        top_p: 0x3f80_0000,
        min_p: 0,
        repeat_penalty: 0x3f80_0000,
        seed,
    }
}

/// The settings as they are given, or those that always take the likeliest token.
pub fn sampler_config(greedy: bool, given: SamplerConfig) -> (r: SamplerConfig)
    ensures
        r == (if greedy {
            greedy_config(given.seed)
        } else {
            given
        }),
{
    if greedy {
        SamplerConfig {
            temperature: 0,
            top_k: 0,
            top_p: 0x3f80_0000,
            min_p: 0,
            repeat_penalty: 0x3f80_0000,
            seed: given.seed,
        }
    } else {
        given
    }
}

/// A prompt without the white space around it; an empty one is refused.
pub fn checked_prompt(given: &str) -> (r: GgufResult<String>)
    ensures
        trimmed(given@).len() == 0 ==> r is Err && r->Err_0@ == ErrorView::InferenceError(
            "prompt 为空"@,
        ),
        trimmed(given@).len() > 0 ==> r is Ok && r->Ok_0@ == trimmed(given@),
{
    let p = trim(given);
    if p.as_str().is_empty() {
        Err(GgufError::InferenceError(owned("prompt 为空")))
    } else {
        Ok(p)
    }
}

/// What a typed line asks for.
#[derive(Debug, PartialEq, Eq)]
pub enum Line {
    /// Nothing.
    Blank,
    /// The end.
    Quit,
    /// A new dialogue.
    Reset,
    /// An answer to this message.
    Ask(String),
}

/// A [`Line`] with its message as a sequence of characters.
pub enum LineView {
    Blank,
    Quit,
    Reset,
    Ask(Seq<char>),
}

impl View for Line {
    type V = LineView;

    open spec fn view(&self) -> LineView {
        match *self {
            Line::Blank => LineView::Blank,
            Line::Quit => LineView::Quit,
            Line::Reset => LineView::Reset,
            Line::Ask(s) => LineView::Ask(s@),
        }
    }
}

/// What a typed line asks for, without the white space around it.
pub open spec fn line_of(typed: Seq<char>) -> LineView {
    let s = trimmed(typed);
    if s.len() == 0 {
        LineView::Blank
    } else if s == ":quit"@ || s == ":q"@ {
        LineView::Quit
    } else if s == ":reset"@ {
        LineView::Reset
    } else {
        LineView::Ask(s)
    }
}

/// What a typed line asks for.
pub fn read_line(typed: &str) -> (r: Line)
    ensures
        r@ == line_of(typed@),
{
    let s = trim(typed);
    if s.as_str().is_empty() {
        Line::Blank
    } else if same(s.as_str(), ":quit") || same(s.as_str(), ":q") {
        Line::Quit
    } else if same(s.as_str(), ":reset") {
        Line::Reset
    } else {
        Line::Ask(s)
    }
}

/// What is said before the dialogue begins.
pub fn banner() -> (r: &'static str)
    ensures
        r@
            == "\n===== 交互问答模式 =====\n  输入问题后回车发送，模型回复将流式输出\n  特殊命令: :reset 清空上下文  :quit 退出\n"@,
{
    "\n===== 交互问答模式 =====\n  输入问题后回车发送，模型回复将流式输出\n  特殊命令: :reset 清空上下文  :quit 退出\n"
}

/// What is said behind a reply: the line is ended, and where the output is one of bytes a blank
/// line follows.
pub fn reply_end(wide: bool) -> (r: &'static str)
    ensures
        r@ == (if wide {
            "\n"@
        } else {
            "\n\n"@
        }),
{
    if wide {
        "\n"
    } else {
        "\n\n"
    }
}

/// What is done after a line was typed.
#[derive(Debug, PartialEq, Eq)]
pub enum Step {
    /// Another line is read.
    Again,
    /// The dialogue is forgotten, this is said, and another line is read.
    Forget(String),
    /// The message is answered, and another line is read.
    Answer(String),
    /// This is said, and it is over.
    End(String),
}

/// A [`Step`] with its text as a sequence of characters.
pub enum StepView {
    Again,
    Forget(Seq<char>),
    Answer(Seq<char>),
    End(Seq<char>),
}

impl View for Step {
    type V = StepView;

    open spec fn view(&self) -> StepView {
        match *self {
            Step::Again => StepView::Again,
            Step::Forget(s) => StepView::Forget(s@),
            Step::Answer(s) => StepView::Answer(s@),
            Step::End(s) => StepView::End(s@),
        }
    }
}

/// What is done after a line was typed, or where there is none any more.
pub open spec fn step_of(typed: Option<Seq<char>>) -> StepView {
    match typed {
        None => StepView::End(Seq::empty()),
        Some(t) => match line_of(t) {
            LineView::Blank => StepView::Again,
            LineView::Quit => StepView::End("退出。\n"@),
            LineView::Reset => StepView::Forget("[上下文已清空]\n"@),
            LineView::Ask(s) => StepView::Answer(s),
        },
    }
}

/// What is done after a line was typed, or where there is none any more.
pub fn next_step(typed: Option<&str>) -> (r: Step)
    ensures
        r@ == step_of(
            match typed {
                Some(t) => Some(t@),
                None => None,
            },
        ),
{
    match typed {
        None => Step::End(String::new()),
        Some(t) => match read_line(t) {
            Line::Blank => Step::Again,
            Line::Quit => Step::End(owned("退出。\n")),
            Line::Reset => Step::Forget(owned("[上下文已清空]\n")),
            Line::Ask(s) => Step::Answer(s),
        },
    }
}

/// What stands in the message of a dialogue that has become too long.
pub open spec fn too_long_mark() -> Seq<char> {
    "上下文超出"@
}

/// What is said after a turn.
pub open spec fn status_of(
    result: Result<(), ErrorView>,
    verbose: bool,
    took: Seq<char>,
    used: nat,
    limit: nat,
) -> Seq<char> {
    match result {
        Ok(_) => if verbose {
            "  [耗时 "@ + took + ", ctx "@ + dec(used) + "/"@ + dec(limit) + "]\n"@
        } else {
            "  [耗时 "@ + took + "]\n"@
        },
        Err(e) => "  错误: "@ + error_text(e) + "\n"@ + (if has_part(
            error_text(e),
            too_long_mark(),
        ) {
            "  提示: 输入 :reset 清空上下文后重新提问\n"@
        } else {
            ""@
        }),
    }
}

/// What is said after a turn that took `took`: how long it took and, where asked for, how much of
/// the model's view is used; or what went wrong, and what to do where the dialogue has become too
/// long.
pub fn status_line(
    result: &GgufResult<()>,
    verbose: bool,
    took: &str,
    used: usize,
    limit: usize,
) -> (r: String)
    ensures
        r@ == status_of(
            (match *result {
                Ok(_) => Ok(()),
                Err(e) => Err(e@),
            }),
            verbose,
            took@,
            used as nat,
            limit as nat,
        ),
{
    match result {
        Ok(_) => {
            let mut s = concat("  [耗时 ", took);
            if verbose {
                s.append(", ctx ");
                push_dec(&mut s, used as u64);
                s.append("/");
                push_dec(&mut s, limit as u64);
            }
            s.append("]\n");
            s
        },
        Err(e) => {
            let text = e.to_string();
            let mut s = concat("  错误: ", text.as_str());
            s.append("\n");
            let ghost said = s@;
            if contains(text.as_str(), "上下文超出") {
                s.append("  提示: 输入 :reset 清空上下文后重新提问\n");
            } else {
                proof {
                    reveal_strlit("");
                    assert(said + ""@ =~= said);
                }
            }
            s
        },
    }
}

/// What is said of a model when it is loaded.
pub open spec fn loaded_text(
    arch: Option<Seq<char>>,
    h: HParamsView,
    size: u64,
    took: Seq<char>,
) -> Seq<char> {
    "  架构="@ + (match arch {
        Some(a) => a,
        None => "?"@,
    }) + "  层数="@ + dec(h.n_layers as nat) + "  隐藏维度="@ + dec(h.embed_dim as nat) + "  词表="@ + dec(
        h.vocab_size as nat,
    ) + "  大小="@ + size_text(size, 1) + "  耗时="@ + took
}

/// What is said of a model when it is loaded, after `took`.
pub fn loaded_line(arch: Option<&str>, h: &HParams, size: u64, took: &str) -> (r: String)
    ensures
        r@ == loaded_text(
            (match arch {
                Some(a) => Some(a@),
                None => None,
            }),
            h@,
            size,
            took@,
        ),
{
    let mut s = owned("  架构=");
    match arch {
        Some(a) => s.append(a),
        None => s.append("?"),
    }
    s.append("  层数=");
    push_dec(&mut s, h.n_layers as u64);
    s.append("  隐藏维度=");
    push_dec(&mut s, h.embed_dim as u64);
    s.append("  词表=");
    push_dec(&mut s, h.vocab_size as u64);
    s.append("  大小=");
    s.append(human_size(size, 1).as_str());
    s.append("  耗时=");
    s.append(took);
    s
}

/// What is said when the engine is ready.
pub open spec fn ready_text(h: HParamsView) -> Seq<char> {
    "引擎就绪 (embed="@ + dec(h.embed_dim as nat) + ", heads="@ + dec(h.n_heads as nat) + ", kv_heads="@
        + dec(h.n_kv_heads as nat) + ", ffn="@ + dec(h.ffn_dim as nat) + ", ctx="@ + dec(
        h.context_length as nat,
    ) + ")"@
}

/// What is said when the engine is ready.
pub fn ready_line(h: &HParams) -> (r: String)
    ensures
        r@ == ready_text(h@),
{
    let mut s = owned("引擎就绪 (embed=");
    push_dec(&mut s, h.embed_dim as u64);
    s.append(", heads=");
    push_dec(&mut s, h.n_heads as u64);
    s.append(", kv_heads=");
    push_dec(&mut s, h.n_kv_heads as u64);
    s.append(", ffn=");
    push_dec(&mut s, h.ffn_dim as u64);
    s.append(", ctx=");
    push_dec(&mut s, h.context_length as u64);
    s.append(")");
    s
}

// ---------------------------------------------------------------------------------------------
// Lines of 16-bit characters
// ---------------------------------------------------------------------------------------------

/// A line without the line breaks at its end.
pub open spec fn without_breaks(line: Seq<u16>) -> Seq<u16>
    decreases line.len(),
{
    if line.len() > 0 && (line.last() == 0x0a || line.last() == 0x0d) {
        without_breaks(line.drop_last())
    } else {
        line
    }
}

/// Takes the line breaks off the end of a line.
pub fn strip_breaks(line: &mut Vec<u16>)
    ensures
        final(line)@ == without_breaks(old(line)@),
{
    let ghost start = line@;
    while line.len() > 0 && (line[line.len() - 1] == 0x0a || line[line.len() - 1] == 0x0d)
        invariant
            without_breaks(line@) == without_breaks(start),
        decreases line@.len(),
    {
        let ghost before = line@;
        line.pop();
        assert(line@ =~= before.drop_last());
    }
}

/// The most characters of a line that are waited for.
pub const LONGEST_LINE: usize = 65536;

/// Whether a line that is read in parts is read to its end: a part holds a line break, or it has
/// become too long.
pub fn line_is_complete(line: &Vec<u16>) -> (r: bool)
    ensures
        r == (line@.contains(0x0au16) || line@.len() > LONGEST_LINE),
{
    let mut i: usize = 0;
    while i < line.len()
        invariant
            i <= line@.len(),
            forall|k: int| 0 <= k < i ==> line@[k] != 0x0au16,
        decreases line@.len() - i,
    {
        if line[i] == 0x0a {
            assert(line@[i as int] == 0x0au16);
            return true;
        }
        i += 1;
    }
    line.len() > LONGEST_LINE
}

} // verus!
