//! The settings of a run.
use vstd::prelude::*;
use crate::console::{greedy_config, sampler_config};
use crate::gui::inference::{CommandView, UiCommand};
use crate::gui::state::{no_stats, GenStats};
use crate::infer::sampler::SamplerConfig;

verus! {

/// The settings as the window holds them. The numbers that are not integers are bit patterns of
/// single precision numbers.
#[derive(Clone, Copy, Debug, PartialEq, Eq, Structural)]
pub struct SettingsPanel {
    pub temperature: u32,
    pub top_k: usize,
    pub top_p: u32,
    pub min_p: u32,
    pub repeat_penalty: u32,
    pub seed: u64,
    pub max_tokens: usize,
    pub greedy: bool,
    pub collapsed: bool,
    /// How the last run went.
    pub stats: GenStats,
}

/// The settings of a new window: temperature 0.8, the 40 likeliest tokens, 0.95 of the probability,
/// no least probability, a penalty of 1.1, no seed, and 512 tokens.
pub open spec fn default_settings() -> SettingsPanel {
    SettingsPanel {
        temperature: 0x3f4c_cccd,
        top_k: 40,
        top_p: 0x3f73_3333,
        min_p: 0,
        repeat_penalty: 0x3f8c_cccd,
        seed: 0,
        max_tokens: 512,
        greedy: false,
        collapsed: true,
        stats: no_stats(),
    }
}

impl Default for SettingsPanel {
    fn default() -> (r: Self)
        ensures
            r == default_settings(),
    {
        SettingsPanel {
            temperature: 0x3f4c_cccd,
            top_k: 40,
            top_p: 0x3f73_3333,
            min_p: 0,
            repeat_penalty: 0x3f8c_cccd,
            seed: 0,
            max_tokens: 512,
            greedy: false,
            collapsed: true,
            stats: GenStats { elapsed_ms: 0, tokens: 0, ctx_len: 0, ctx_limit: 0 },
        }
    }
}

/// How tokens are chosen under these settings.
pub open spec fn chosen_config(s: SettingsPanel) -> SamplerConfig {
    if s.greedy {
        greedy_config(s.seed)
    } else {
        SamplerConfig {
            temperature: s.temperature,
            top_k: s.top_k,
            top_p: s.top_p,
            min_p: s.min_p,
            repeat_penalty: s.repeat_penalty,
            seed: s.seed,
        }
    }
}

impl SettingsPanel {
    /// How tokens are chosen under these settings.
    pub fn sampler_config(&self) -> (r: SamplerConfig)
        ensures
            r == chosen_config(*self),
    {
        sampler_config(
            self.greedy,
            SamplerConfig {
                temperature: self.temperature,
                top_k: self.top_k,
                top_p: self.top_p,
                min_p: self.min_p,
                repeat_penalty: self.repeat_penalty,
                seed: self.seed,
            },
        )
    }

    /// The command that asks for an answer to a message.
    pub fn send_chat(&self, text: String) -> (r: UiCommand)
        ensures
            r@ == (CommandView::Chat {
                text: text@,
                max_tokens: self.max_tokens,
                sampler: chosen_config(*self),
            }),
    {
        UiCommand::Chat { text, max_tokens: self.max_tokens, sampler: self.sampler_config() }
    }

    /// The command that asks for the continuation of a prompt; an empty one asks for nothing.
    pub fn send_prompt(&self, text: String, stream: bool) -> (r: Option<UiCommand>)
        ensures
            text@.len() == 0 ==> r is None,
            text@.len() > 0 ==> r is Some && r->Some_0@ == (CommandView::Prompt {
                text: text@,
                max_tokens: self.max_tokens,
                sampler: chosen_config(*self),
                stream,
            }),
    {
        if text.as_str().is_empty() {
            return None;
        }
        Some(
            UiCommand::Prompt {
                text,
                max_tokens: self.max_tokens,
                sampler: self.sampler_config(),
                stream,
            },
        )
    }
}

} // verus!
