//! Reading back the agent's self-description (`self_prompt.md`).
use vstd::prelude::*;
use std::path::PathBuf;
use crate::text::{after_first, chars_of, lines, parse_u32, parse_u32_spec, parse_u64, parse_u64_spec,
    split_after_first, split_lines, starts_with, str_prefix, take_until, trim, trim_chars, until_first, views,
    decimal, push_decimal, push_str, string_from_chars};

verus! {

/// Generates new actions and source patches from observed signal dynamics.
pub struct CodeGenerator {
    pub src_root: PathBuf,
    pub data_dir: PathBuf,
}

/// The self-model patch: a header comment naming the tick and the number of
/// identity symbols, then the source itself.
pub open spec fn self_model_patch_text(source: Seq<char>, identity_symbols: nat, tick: nat) -> Seq<char> {
    "// gene self-patch at tick "@ + decimal(tick) + " — self_model has "@ + decimal(identity_symbols)
        + " identity symbols\n"@ + source
}

/// The generic patch: a header comment naming the tick, the number of action
/// observations and the number of identity symbols, then the source itself.
pub open spec fn annotation_patch_text(
    source: Seq<char>,
    observations: nat,
    identity_symbols: nat,
    tick: nat,
) -> Seq<char> {
    "// gene self-annotation at tick "@ + decimal(tick) + " — "@ + decimal(observations)
        + " action observations, "@ + decimal(identity_symbols) + " identity symbols\n"@ + source
}

impl CodeGenerator {
    pub fn new(src_root: PathBuf, data_dir: PathBuf) -> (r: CodeGenerator)
        ensures
            r.src_root == src_root,
            r.data_dir == data_dir,
    {
        CodeGenerator { src_root, data_dir }
    }

    /// Patch for the self-model source: annotate it with the size of the
    /// identity signature.
    pub fn patch_self_model(&self, source: &str, identity_symbols: usize, tick: u64) -> (r: String)
        ensures
            r@ == self_model_patch_text(source@, identity_symbols as nat, tick as nat),
    {
        let mut out: Vec<char> = Vec::new();
        push_str(&mut out, "// gene self-patch at tick ");
        push_decimal(tick, &mut out);
        push_str(&mut out, " — self_model has ");
        push_decimal(identity_symbols as u64, &mut out);
        push_str(&mut out, " identity symbols\n");
        push_str(&mut out, source);
        assert(out@ =~= self_model_patch_text(source@, identity_symbols as nat, tick as nat));
        string_from_chars(&out)
    }

    /// Patch for any other source: annotate it with the number of action
    /// observations and the size of the identity signature.
    pub fn generic_annotation_patch(
        &self,
        source: &str,
        observations: u32,
        identity_symbols: usize,
        tick: u64,
    ) -> (r: String)
        ensures
            r@ == annotation_patch_text(source@, observations as nat, identity_symbols as nat, tick as nat),
    {
        let mut out: Vec<char> = Vec::new();
        push_str(&mut out, "// gene self-annotation at tick ");
        push_decimal(tick, &mut out);
        push_str(&mut out, " — ");
        push_decimal(observations as u64, &mut out);
        push_str(&mut out, " action observations, ");
        push_decimal(identity_symbols as u64, &mut out);
        push_str(&mut out, " identity symbols\n");
        push_str(&mut out, source);
        assert(out@ =~= annotation_patch_text(source@, observations as nat, identity_symbols as nat, tick as nat));
        string_from_chars(&out)
    }
}

/// Data parsed from self_prompt.md, used to bootstrap a fresh session.
pub struct SelfPromptData {
    pub prior_tick: u64,
    pub preferred_action: Option<u32>,
    pub avoided_action: Option<u32>,
    pub raw: String,
}

/// The tick on a `Generated at tick: N` line: the second `:`-separated piece,
/// trimmed and parsed (0 when it does not parse).
pub open spec fn tick_of_line(line: Seq<char>) -> u64 {
    match after_first(line, ':') {
        Some(rest) => match parse_u64_spec(trim(until_first(rest, ':'))) {
            Some(v) => v,
            None => 0,
        },
        None => 0,
    }
}

/// The action id on a `Best action: action_N (…)` line: the second
/// `_`-separated piece up to its first space, parsed as `u32`.
pub open spec fn action_of_line(line: Seq<char>) -> Option<u32> {
    match after_first(line, '_') {
        Some(rest) => parse_u32_spec(until_first(until_first(rest, '_'), ' ')),
        None => None,
    }
}

/// (prior tick, preferred action, avoided action) after reading `ls` in
/// order; each kind of line overwrites the earlier value.
pub open spec fn prompt_state(ls: Seq<Seq<char>>) -> (u64, Option<u32>, Option<u32>)
    decreases ls.len(),
{
    if ls.len() == 0 {
        (0, None, None)
    } else {
        let (t, p, a) = prompt_state(ls.drop_last());
        let l = ls.last();
        let t1 = if starts_with(l, "Generated at tick:"@) { tick_of_line(l) } else { t };
        let p1 = if starts_with(l, "Best action: action_"@) { action_of_line(l) } else { p };
        let a1 = if starts_with(l, "Worst action: action_"@) { action_of_line(l) } else { a };
        (t1, p1, a1)
    }
}

fn tick_of_line_exec(line: &Vec<char>) -> (r: u64)
    ensures
        r == tick_of_line(line@),
{
    match split_after_first(line, ':') {
        Some(rest) => {
            let piece = take_until(&rest, ':');
            let t = trim_chars(&piece);
            match parse_u64(&t) {
                Some(v) => v,
                None => 0,
            }
        },
        None => 0,
    }
}

fn action_of_line_exec(line: &Vec<char>) -> (r: Option<u32>)
    ensures
        r == action_of_line(line@),
{
    match split_after_first(line, '_') {
        Some(rest) => {
            let piece = take_until(&rest, '_');
            let word = take_until(&piece, ' ');
            parse_u32(&word)
        },
        None => None,
    }
}

/// Parses the content of `self_prompt.md`: the tick it was generated at and
/// the best and worst actions it names. Lines that do not match leave the
/// values as they were (0 and none to begin with).
pub fn parse_self_prompt(content: String) -> (r: SelfPromptData)
    ensures
        r.raw == content,
        (r.prior_tick, r.preferred_action, r.avoided_action) == prompt_state(lines(content@)),
{
    let cs = chars_of(content.as_str());
    let ls = split_lines(&cs);
    let ghost all = views(ls@);
    let mut prior_tick: u64 = 0;
    let mut preferred_action: Option<u32> = None;
    let mut avoided_action: Option<u32> = None;
    let mut k: usize = 0;
    while k < ls.len()
        invariant
            all == views(ls@),
            k <= all.len(),
            (prior_tick, preferred_action, avoided_action) == prompt_state(all.take(k as int)),
        decreases all.len() - k,
    {
        proof {
            assert(all.take(k + 1).drop_last() =~= all.take(k as int));
            assert(all.take(k + 1).last() == ls@[k as int]@);
        }
        let line = &ls[k];
        if str_prefix(line, "Generated at tick:") {
            prior_tick = tick_of_line_exec(line);
        }
        if str_prefix(line, "Best action: action_") {
            preferred_action = action_of_line_exec(line);
        }
        if str_prefix(line, "Worst action: action_") {
            avoided_action = action_of_line_exec(line);
        }
        k = k + 1;
    }
    assert(all.take(all.len() as int) =~= all);
    SelfPromptData { prior_tick, preferred_action, avoided_action, raw: content }
}

} // verus!
