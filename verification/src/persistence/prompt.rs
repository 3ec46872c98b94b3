//! Writing the agent's self-description (`self_prompt.md`), and the law that
//! reading it back recovers what was written.
use vstd::prelude::*;
use crate::persistence::codegen::{prompt_state, tick_of_line, action_of_line};
use crate::text::{after_first, all_digits, decimal, is_digit, is_ws, join_lines, join_lines_exec, lines,
    parse_u32_spec, parse_u64_spec, push_decimal, push_str, starts_with, string_from_chars, strip_cr, trim,
    until_first, views, lemma_after_first_append, lemma_decimal_digits, lemma_decimal_excludes,
    lemma_lines_of_join, lemma_parse_decimal, lemma_strip_cr_prefix, lemma_until_first_append};

verus! {

/// Whether the self-prompt reader acts on line `l`.
pub open spec fn is_prompt_key(l: Seq<char>) -> bool {
    starts_with(l, "Generated at tick:"@) || starts_with(l, "Best action: action_"@)
        || starts_with(l, "Worst action: action_"@)
}

/// Whether `s` holds no line break.
pub open spec fn single_line(s: Seq<char>) -> bool {
    !s.contains('\n')
}

/// The `Generated at tick` line.
pub open spec fn tick_line(tick: u64) -> Seq<char> {
    "Generated at tick"@ + ": "@ + decimal(tick as nat)
}

/// The best-action line: the action and its mean imbalance delta, or a note
/// that there is not enough data.
pub open spec fn best_line(best: Option<(u32, Seq<char>)>) -> Seq<char> {
    match best {
        Some((id, d)) => "Best action: action"@ + "_"@ + decimal(id as nat) + " (mean"@ + "_delta:"@ + d + ")"@,
        None => "Best action: insufficient data"@,
    }
}

/// The worst-action line, as the best-action line.
pub open spec fn worst_line(worst: Option<(u32, Seq<char>)>) -> Seq<char> {
    match worst {
        Some((id, d)) => "Worst action: action"@ + "_"@ + decimal(id as nat) + " (mean"@ + "_delta:"@ + d + ")"@,
        None => "Worst action: insufficient data"@,
    }
}

/// The ranking lines; a single empty line when there are none.
pub open spec fn ranking_block(ranking: Seq<Seq<char>>) -> Seq<Seq<char>> {
    if ranking.len() == 0 { seq![Seq::<char>::empty()] } else { ranking }
}

/// The self-prompt up to the ranking heading.
pub open spec fn prompt_head(
    tick: u64,
    identity: Seq<char>,
    dominant: Seq<char>,
    symbol_count: nat,
    imbalance: Seq<char>,
    top_deviating: Seq<char>,
    best: Option<(u32, Seq<char>)>,
    worst: Option<(u32, Seq<char>)>,
) -> Seq<Seq<char>> {
    seq![
        "# Gene Self-Prompt"@,
        tick_line(tick),
        "This file is written and read by the agent itself. Do not edit manually."@,
        Seq::<char>::empty(),
        "## Identity"@,
        identity,
        "Dominant symbol: "@ + dominant,
        "Total symbols coined: "@ + decimal(symbol_count),
        Seq::<char>::empty(),
        "## Regulatory State"@,
        "Current imbalance: "@ + imbalance,
        "Top deviating signals: "@ + top_deviating,
        Seq::<char>::empty(),
        "## Action Performance (learned)"@,
        best_line(best),
        worst_line(worst),
        Seq::<char>::empty(),
        "### Full ranking (best to worst):"@,
    ]
}

/// The self-prompt after the ranking.
pub open spec fn prompt_tail(tick: u64, active: Seq<char>) -> Seq<Seq<char>> {
    seq![
        Seq::<char>::empty(),
        "## Operational Notes"@,
        "- All currently available actions produce net-positive imbalance delta."@,
        "- A corrective action targeting top-deviation signals should be generated."@,
        "- The system has been running for "@ + decimal(tick as nat) + " ticks."@,
        "- Continuity signals are nominal — self-modification is permitted."@,
        Seq::<char>::empty(),
        "## Symbol Context at last write"@,
        "Active: "@ + active,
    ]
}

/// The lines of the self-prompt.
pub open spec fn self_prompt_lines(
    tick: u64,
    identity: Seq<char>,
    dominant: Seq<char>,
    symbol_count: nat,
    imbalance: Seq<char>,
    top_deviating: Seq<char>,
    best: Option<(u32, Seq<char>)>,
    worst: Option<(u32, Seq<char>)>,
    ranking: Seq<Seq<char>>,
    active: Seq<char>,
) -> Seq<Seq<char>> {
    prompt_head(tick, identity, dominant, symbol_count, imbalance, top_deviating, best, worst)
        + ranking_block(ranking) + prompt_tail(tick, active)
}

/// An action and the text of its mean delta, as characters.
pub open spec fn summary_view<'a>(a: Option<(u32, &'a str)>) -> Option<(u32, Seq<char>)> {
    match a {
        Some((id, d)) => Some((id, d@)),
        None => None,
    }
}

fn line_with(prefix: &str, rest: &str) -> (r: Vec<char>)
    ensures
        r@ == prefix@ + rest@,
{
    let mut v: Vec<char> = Vec::new();
    push_str(&mut v, prefix);
    push_str(&mut v, rest);
    v
}

fn lit_line(text: &str) -> (r: Vec<char>)
    ensures
        r@ == text@,
{
    let mut v: Vec<char> = Vec::new();
    push_str(&mut v, text);
    assert(v@ =~= text@);
    v
}

fn action_line(head: &str, a: Option<(u32, &str)>) -> (r: Vec<char>)
    ensures
        r@ == match summary_view(a) {
            Some((id, d)) => head@ + " action"@ + "_"@ + decimal(id as nat) + " (mean"@ + "_delta:"@ + d + ")"@,
            None => head@ + " insufficient data"@,
        },
{
    let mut v: Vec<char> = Vec::new();
    push_str(&mut v, head);
    match a {
        Some((id, d)) => {
            push_str(&mut v, " action");
            push_str(&mut v, "_");
            push_decimal(id as u64, &mut v);
            push_str(&mut v, " (mean");
            push_str(&mut v, "_delta:");
            push_str(&mut v, d);
            push_str(&mut v, ")");
        },
        None => {
            push_str(&mut v, " insufficient data");
        },
    }
    v
}

/// The content of `self_prompt.md`: identity, regulatory state and learned
/// action performance. The real-valued parts (imbalance, mean deltas, the
/// ranking lines and the active-symbol summary) come already rendered.
pub fn self_prompt_text(
    tick: u64,
    identity: &str,
    dominant: &str,
    symbol_count: usize,
    imbalance: &str,
    top_deviating: &str,
    best: Option<(u32, &str)>,
    worst: Option<(u32, &str)>,
    ranking: &[String],
    active: &str,
) -> (r: String)
    ensures
        r@ == join_lines(self_prompt_lines(
            tick,
            identity@,
            dominant@,
            symbol_count as nat,
            imbalance@,
            top_deviating@,
            summary_view(best),
            summary_view(worst),
            ranking@.map_values(|s: String| s@),
            active@,
        )),
{
    proof {
        reveal_strlit("Best action:");
        reveal_strlit(" action");
        reveal_strlit(" insufficient data");
        reveal_strlit("Best action: action");
        reveal_strlit("Best action: insufficient data");
        reveal_strlit("Worst action:");
        reveal_strlit("Worst action: action");
        reveal_strlit("Worst action: insufficient data");
    }
    let mut ls: Vec<Vec<char>> = Vec::new();
    ls.push(lit_line("# Gene Self-Prompt"));
    let mut g: Vec<char> = Vec::new();
    push_str(&mut g, "Generated at tick");
    push_str(&mut g, ": ");
    push_decimal(tick, &mut g);
    ls.push(g);
    ls.push(lit_line("This file is written and read by the agent itself. Do not edit manually."));
    ls.push(Vec::new());
    ls.push(lit_line("## Identity"));
    ls.push(lit_line(identity));
    ls.push(line_with("Dominant symbol: ", dominant));
    let mut c: Vec<char> = Vec::new();
    push_str(&mut c, "Total symbols coined: ");
    push_decimal(symbol_count as u64, &mut c);
    ls.push(c);
    ls.push(Vec::new());
    ls.push(lit_line("## Regulatory State"));
    ls.push(line_with("Current imbalance: ", imbalance));
    ls.push(line_with("Top deviating signals: ", top_deviating));
    ls.push(Vec::new());
    ls.push(lit_line("## Action Performance (learned)"));
    let b = action_line("Best action:", best);
    assert(b@ == best_line(summary_view(best)));
    ls.push(b);
    let w = action_line("Worst action:", worst);
    assert(w@ == worst_line(summary_view(worst)));
    ls.push(w);
    ls.push(Vec::new());
    ls.push(lit_line("### Full ranking (best to worst):"));
    let ghost head = views(ls@);
    assert(head =~= prompt_head(
        tick,
        identity@,
        dominant@,
        symbol_count as nat,
        imbalance@,
        top_deviating@,
        summary_view(best),
        summary_view(worst),
    ));
    if ranking.len() == 0 {
        ls.push(Vec::new());
    } else {
        let mut k: usize = 0;
        while k < ranking.len()
            invariant
                k <= ranking@.len(),
                views(ls@) == head + ranking@.map_values(|s: String| s@).take(k as int),
            decreases ranking@.len() - k,
        {
            let ghost before = views(ls@);
            let line = lit_line(ranking[k].as_str());
            ls.push(line);
            proof {
                let rv = ranking@.map_values(|s: String| s@);
                assert(views(ls@) =~= before.push(ranking@[k as int]@));
                assert(rv.take(k + 1) =~= rv.take(k as int).push(rv[k as int]));
                assert(views(ls@) =~= head + rv.take(k + 1));
            }
            k = k + 1;
        }
        assert(ranking@.map_values(|s: String| s@).take(ranking@.len() as int) =~= ranking@.map_values(|s: String| s@));
    }
    let ghost mid = views(ls@);
    assert(mid =~= head + ranking_block(ranking@.map_values(|s: String| s@)));
    ls.push(Vec::new());
    ls.push(lit_line("## Operational Notes"));
    ls.push(lit_line("- All currently available actions produce net-positive imbalance delta."));
    ls.push(lit_line("- A corrective action targeting top-deviation signals should be generated."));
    let mut run: Vec<char> = Vec::new();
    push_str(&mut run, "- The system has been running for ");
    push_decimal(tick, &mut run);
    push_str(&mut run, " ticks.");
    ls.push(run);
    ls.push(lit_line("- Continuity signals are nominal — self-modification is permitted."));
    ls.push(Vec::new());
    ls.push(lit_line("## Symbol Context at last write"));
    ls.push(line_with("Active: ", active));
    assert(views(ls@) =~= mid + prompt_tail(tick, active@));
    assert(views(ls@) =~= self_prompt_lines(
        tick,
        identity@,
        dominant@,
        symbol_count as nat,
        imbalance@,
        top_deviating@,
        summary_view(best),
        summary_view(worst),
        ranking@.map_values(|s: String| s@),
        active@,
    ));
    let out = join_lines_exec(&ls);
    string_from_chars(&out)
}

/// The action id of a summary, if any.
pub open spec fn summary_id(a: Option<(u32, Seq<char>)>) -> Option<u32> {
    match a {
        Some((id, _)) => Some(id),
        None => None,
    }
}

proof fn lemma_single_concat(x: Seq<char>, y: Seq<char>)
    requires
        single_line(x),
        single_line(y),
    ensures
        single_line(x + y),
{
    if (x + y).contains('\n') {
        let i = choose|i: int| 0 <= i < (x + y).len() && (x + y)[i] == '\n';
        if i < x.len() {
            assert(x[i] == '\n');
        } else {
            assert(y[i - x.len()] == '\n');
        }
    }
}

/// A line starting with a character other than `G`, `B` and `W` is not one
/// the reader acts on.
proof fn lemma_first_char_neutral(l: Seq<char>)
    requires
        l.len() == 0 || (l[0] != 'G' && l[0] != 'B' && l[0] != 'W'),
    ensures
        !is_prompt_key(l),
{
    reveal_strlit("Generated at tick:");
    reveal_strlit("Best action: action_");
    reveal_strlit("Worst action: action_");
    if starts_with(l, "Generated at tick:"@) {
        assert(l.subrange(0, 18)[0] == l[0]);
    }
    if starts_with(l, "Best action: action_"@) {
        assert(l.subrange(0, 20)[0] == l[0]);
    }
    if starts_with(l, "Worst action: action_"@) {
        assert(l.subrange(0, 21)[0] == l[0]);
    }
}

/// Lines the reader does not act on leave its state as it was.
pub proof fn lemma_prompt_state_neutral(a: Seq<Seq<char>>, b: Seq<Seq<char>>)
    requires
        forall|i: int| 0 <= i < b.len() ==> !is_prompt_key(#[trigger] b[i]),
    ensures
        prompt_state(a + b) == prompt_state(a),
    decreases b.len(),
{
    if b.len() == 0 {
        assert(a + b =~= a);
    } else {
        let d = b.drop_last();
        assert forall|i: int| 0 <= i < d.len() implies !is_prompt_key(#[trigger] d[i]) by {
            assert(d[i] == b[i]);
        }
        lemma_prompt_state_neutral(a, d);
        assert((a + b).drop_last() =~= a + d);
        assert((a + b).last() == b[b.len() - 1]);
        assert(!is_prompt_key(b[b.len() - 1]));
    }
}

/// The tick line is read back as the tick.
proof fn lemma_tick_line(tick: u64)
    ensures
        strip_cr(tick_line(tick)) == tick_line(tick),
        single_line(tick_line(tick)),
        starts_with(tick_line(tick), "Generated at tick:"@),
        !starts_with(tick_line(tick), "Best action: action_"@),
        !starts_with(tick_line(tick), "Worst action: action_"@),
        tick_of_line(tick_line(tick)) == tick,
{
    reveal_strlit("Generated at tick:");
    reveal_strlit("Generated at tick");
    reveal_strlit(": ");
    reveal_strlit("Best action: action_");
    reveal_strlit("Worst action: action_");
    let dec = decimal(tick as nat);
    lemma_decimal_digits(tick as nat);
    lemma_parse_decimal(tick);
    lemma_decimal_excludes(tick as nat, ':');
    lemma_decimal_excludes(tick as nat, '\n');
    let x = "Generated at tick"@;
    let y = ": "@ + dec;
    let l = tick_line(tick);
    assert(l =~= x + y);
    assert(l.last() == dec.last());
    assert(is_digit(dec[dec.len() - 1]));
    assert(l.subrange(0, 18) =~= "Generated at tick:"@);
    assert(l[0] == 'G');
    if starts_with(l, "Best action: action_"@) {
        assert(l.subrange(0, 20)[0] == l[0]);
    }
    if starts_with(l, "Worst action: action_"@) {
        assert(l.subrange(0, 21)[0] == l[0]);
    }
    assert(!x.contains(':'));
    lemma_after_first_append(x, y, ':');
    assert(y.drop_first() =~= " "@ + dec) by {
        reveal_strlit(" ");
    }
    reveal_strlit(" ");
    let rest = " "@ + dec;
    assert(!rest.contains(':')) by {
        if rest.contains(':') {
            let i = choose|i: int| 0 <= i < rest.len() && rest[i] == ':';
            assert(i > 0);
            assert(dec[i - 1] == ':');
        }
    }
    lemma_until_first_append(rest, Seq::empty(), ':');
    assert(rest + Seq::<char>::empty() =~= rest);
    assert(rest.drop_first() =~= dec);
    assert(!is_ws(dec[0]));
    assert(!is_ws(dec.last()));
    assert(trim(rest) == trim(dec));
    assert(trim(dec) == dec);
    assert(!x.contains('\n'));
    assert(!": "@.contains('\n'));
    lemma_single_concat(": "@, dec);
    lemma_single_concat(x, y);
}

/// The best-action line is read back as its action id.
proof fn lemma_best_line(a: Option<(u32, Seq<char>)>)
    requires
        a matches Some((_, d)) ==> single_line(d),
    ensures
        strip_cr(best_line(a)) == best_line(a),
        single_line(best_line(a)),
        starts_with(best_line(a), "Best action: action_"@) <==> a is Some,
        !starts_with(best_line(a), "Generated at tick:"@),
        !starts_with(best_line(a), "Worst action: action_"@),
        a is Some ==> action_of_line(best_line(a)) == summary_id(a),
{
    reveal_strlit("Generated at tick:");
    reveal_strlit("Best action: action_");
    reveal_strlit("Worst action: action_");
    reveal_strlit("Best action: action");
    reveal_strlit("Best action: insufficient data");
    reveal_strlit("_");
    reveal_strlit(" (mean");
    reveal_strlit("_delta:");
    reveal_strlit(")");
    let l = best_line(a);
    assert(l[0] == 'B');
    if starts_with(l, "Generated at tick:"@) {
        assert(l.subrange(0, 18)[0] == l[0]);
    }
    if starts_with(l, "Worst action: action_"@) {
        assert(l.subrange(0, 21)[0] == l[0]);
    }
    match a {
        Some((id, d)) => {
            let dec = decimal(id as nat);
            lemma_decimal_digits(id as nat);
            lemma_parse_decimal(id as u64);
            lemma_decimal_excludes(id as nat, '_');
            lemma_decimal_excludes(id as nat, ' ');
            lemma_decimal_excludes(id as nat, '\n');
            let x = "Best action: action"@;
            let tail = " (mean"@ + "_delta:"@ + d + ")"@;
            let y = "_"@ + dec + tail;
            assert(l =~= x + y);
            assert(l.last() == ')');
            assert(l.subrange(0, 20) =~= "Best action: action_"@);
            assert(!x.contains('_'));
            lemma_after_first_append(x, y, '_');
            let rest = dec + tail;
            assert(y.drop_first() =~= rest);
            let m = dec + " (mean"@;
            assert(!" (mean"@.contains('_'));
            assert(!m.contains('_')) by {
                if m.contains('_') {
                    let i = choose|i: int| 0 <= i < m.len() && m[i] == '_';
                    if i < dec.len() {
                        assert(dec[i] == '_');
                    } else {
                        assert(" (mean"@[i - dec.len()] == '_');
                    }
                }
            }
            let after = "_delta:"@ + d + ")"@;
            assert(rest =~= m + after);
            lemma_until_first_append(m, after, '_');
            assert(until_first(after, '_') == Seq::<char>::empty());
            assert(m + Seq::<char>::empty() =~= m);
            lemma_until_first_append(dec, " (mean"@, ' ');
            assert(until_first(" (mean"@, ' ') == Seq::<char>::empty());
            assert(dec + Seq::<char>::empty() =~= dec);
            assert(!x.contains('\n'));
            assert(!"_"@.contains('\n'));
            assert(!" (mean"@.contains('\n'));
            assert(!"_delta:"@.contains('\n'));
            assert(!")"@.contains('\n'));
            lemma_single_concat(x, "_"@);
            lemma_single_concat(x + "_"@, dec);
            lemma_single_concat(x + "_"@ + dec, " (mean"@);
            lemma_single_concat(x + "_"@ + dec + " (mean"@, "_delta:"@);
            lemma_single_concat(x + "_"@ + dec + " (mean"@ + "_delta:"@, d);
            lemma_single_concat(x + "_"@ + dec + " (mean"@ + "_delta:"@ + d, ")"@);
        },
        None => {
            assert(l.last() == 'a');
            if starts_with(l, "Best action: action_"@) {
                assert(l.subrange(0, 20)[13] == l[13]);
            }
            assert(!l.contains('\n'));
        },
    }
}

/// The worst-action line is read back as its action id.
proof fn lemma_worst_line(a: Option<(u32, Seq<char>)>)
    requires
        a matches Some((_, d)) ==> single_line(d),
    ensures
        strip_cr(worst_line(a)) == worst_line(a),
        single_line(worst_line(a)),
        starts_with(worst_line(a), "Worst action: action_"@) <==> a is Some,
        !starts_with(worst_line(a), "Generated at tick:"@),
        !starts_with(worst_line(a), "Best action: action_"@),
        a is Some ==> action_of_line(worst_line(a)) == summary_id(a),
{
    reveal_strlit("Generated at tick:");
    reveal_strlit("Worst action: action_");
    reveal_strlit("Best action: action_");
    reveal_strlit("Worst action: action");
    reveal_strlit("Worst action: insufficient data");
    reveal_strlit("_");
    reveal_strlit(" (mean");
    reveal_strlit("_delta:");
    reveal_strlit(")");
    let l = worst_line(a);
    assert(l[0] == 'W');
    if starts_with(l, "Generated at tick:"@) {
        assert(l.subrange(0, 18)[0] == l[0]);
    }
    if starts_with(l, "Best action: action_"@) {
        assert(l.subrange(0, 20)[0] == l[0]);
    }
    match a {
        Some((id, d)) => {
            let dec = decimal(id as nat);
            lemma_decimal_digits(id as nat);
            lemma_parse_decimal(id as u64);
            lemma_decimal_excludes(id as nat, '_');
            lemma_decimal_excludes(id as nat, ' ');
            lemma_decimal_excludes(id as nat, '\n');
            let x = "Worst action: action"@;
            let tail = " (mean"@ + "_delta:"@ + d + ")"@;
            let y = "_"@ + dec + tail;
            assert(l =~= x + y);
            assert(l.last() == ')');
            assert(l.subrange(0, 21) =~= "Worst action: action_"@);
            assert(!x.contains('_'));
            lemma_after_first_append(x, y, '_');
            let rest = dec + tail;
            assert(y.drop_first() =~= rest);
            let m = dec + " (mean"@;
            assert(!" (mean"@.contains('_'));
            assert(!m.contains('_')) by {
                if m.contains('_') {
                    let i = choose|i: int| 0 <= i < m.len() && m[i] == '_';
                    if i < dec.len() {
                        assert(dec[i] == '_');
                    } else {
                        assert(" (mean"@[i - dec.len()] == '_');
                    }
                }
            }
            let after = "_delta:"@ + d + ")"@;
            assert(rest =~= m + after);
            lemma_until_first_append(m, after, '_');
            assert(until_first(after, '_') == Seq::<char>::empty());
            assert(m + Seq::<char>::empty() =~= m);
            lemma_until_first_append(dec, " (mean"@, ' ');
            assert(until_first(" (mean"@, ' ') == Seq::<char>::empty());
            assert(dec + Seq::<char>::empty() =~= dec);
            assert(!x.contains('\n'));
            assert(!"_"@.contains('\n'));
            assert(!" (mean"@.contains('\n'));
            assert(!"_delta:"@.contains('\n'));
            assert(!")"@.contains('\n'));
            lemma_single_concat(x, "_"@);
            lemma_single_concat(x + "_"@, dec);
            lemma_single_concat(x + "_"@ + dec, " (mean"@);
            lemma_single_concat(x + "_"@ + dec + " (mean"@, "_delta:"@);
            lemma_single_concat(x + "_"@ + dec + " (mean"@ + "_delta:"@, d);
            lemma_single_concat(x + "_"@ + dec + " (mean"@ + "_delta:"@ + d, ")"@);
        },
        None => {
            assert(l.last() == 'a');
            if starts_with(l, "Worst action: action_"@) {
                assert(l.subrange(0, 21)[14] == l[14]);
            }
            assert(!l.contains('\n'));
        },
    }
}

/// The fixed and single-line parts of the head are single lines the reader
/// does not act on (the tick, best and worst lines aside).
proof fn lemma_head_lines(
    tick: u64,
    identity: Seq<char>,
    dominant: Seq<char>,
    symbol_count: nat,
    imbalance: Seq<char>,
    top_deviating: Seq<char>,
    best: Option<(u32, Seq<char>)>,
    worst: Option<(u32, Seq<char>)>,
)
    requires
        single_line(identity),
        single_line(dominant),
        single_line(imbalance),
        single_line(top_deviating),
        !is_prompt_key(identity),
    ensures
        ({
            let h = prompt_head(tick, identity, dominant, symbol_count, imbalance, top_deviating, best, worst);
            &&& h.len() == 18
            &&& forall|i: int| 0 <= i < 18 && i != 1 && i != 14 && i != 15 ==> single_line(#[trigger] h[i])
                && !is_prompt_key(h[i])
        }),
{
    let h = prompt_head(tick, identity, dominant, symbol_count, imbalance, top_deviating, best, worst);
    reveal_strlit("# Gene Self-Prompt");
    reveal_strlit("This file is written and read by the agent itself. Do not edit manually.");
    reveal_strlit("## Identity");
    reveal_strlit("Dominant symbol: ");
    reveal_strlit("Total symbols coined: ");
    reveal_strlit("## Regulatory State");
    reveal_strlit("Current imbalance: ");
    reveal_strlit("Top deviating signals: ");
    reveal_strlit("## Action Performance (learned)");
    reveal_strlit("### Full ranking (best to worst):");
    lemma_decimal_excludes(symbol_count, '\n');
    lemma_single_concat("Dominant symbol: "@, dominant);
    lemma_single_concat("Total symbols coined: "@, decimal(symbol_count));
    lemma_single_concat("Current imbalance: "@, imbalance);
    lemma_single_concat("Top deviating signals: "@, top_deviating);
    assert forall|i: int| 0 <= i < 18 && i != 1 && i != 14 && i != 15 implies single_line(#[trigger] h[i])
        && !is_prompt_key(h[i]) by {
        if i != 5 {
            lemma_first_char_neutral(h[i]);
        }
    }
}

/// The fixed and single-line parts of the tail are single lines the reader
/// does not act on.
proof fn lemma_tail_lines(tick: u64, active: Seq<char>)
    requires
        single_line(active),
    ensures
        prompt_tail(tick, active).len() == 9,
        forall|i: int| 0 <= i < 9 ==> single_line(#[trigger] prompt_tail(tick, active)[i])
            && !is_prompt_key(prompt_tail(tick, active)[i]),
{
    let t = prompt_tail(tick, active);
    reveal_strlit("## Operational Notes");
    reveal_strlit("- All currently available actions produce net-positive imbalance delta.");
    reveal_strlit("- A corrective action targeting top-deviation signals should be generated.");
    reveal_strlit("- The system has been running for ");
    reveal_strlit(" ticks.");
    reveal_strlit("- Continuity signals are nominal — self-modification is permitted.");
    reveal_strlit("## Symbol Context at last write");
    reveal_strlit("Active: ");
    lemma_decimal_excludes(tick as nat, '\n');
    lemma_single_concat("- The system has been running for "@, decimal(tick as nat));
    lemma_single_concat("- The system has been running for "@ + decimal(tick as nat), " ticks."@);
    lemma_single_concat("Active: "@, active);
    assert forall|i: int| 0 <= i < 9 implies single_line(#[trigger] t[i]) && !is_prompt_key(t[i]) by {
        lemma_first_char_neutral(t[i]);
    }
}

/// What the agent writes into its self-prompt, it reads back: the tick it
/// was written at and the ids of the best and worst actions (none where the
/// data was insufficient). This holds when the free-text pieces are single
/// lines and neither the identity line nor a ranking line looks like a line
/// the reader acts on.
pub proof fn law_self_prompt_read_back(
    tick: u64,
    identity: Seq<char>,
    dominant: Seq<char>,
    symbol_count: nat,
    imbalance: Seq<char>,
    top_deviating: Seq<char>,
    best: Option<(u32, Seq<char>)>,
    worst: Option<(u32, Seq<char>)>,
    ranking: Seq<Seq<char>>,
    active: Seq<char>,
)
    requires
        single_line(identity),
        single_line(dominant),
        single_line(imbalance),
        single_line(top_deviating),
        single_line(active),
        best matches Some((_, d)) ==> single_line(d),
        worst matches Some((_, d)) ==> single_line(d),
        forall|i: int| 0 <= i < ranking.len() ==> single_line(#[trigger] ranking[i]) && !is_prompt_key(ranking[i]),
        !is_prompt_key(identity),
    ensures
        prompt_state(lines(join_lines(self_prompt_lines(
            tick,
            identity,
            dominant,
            symbol_count,
            imbalance,
            top_deviating,
            best,
            worst,
            ranking,
            active,
        )))) == (tick, summary_id(best), summary_id(worst)),
{
    let h = prompt_head(tick, identity, dominant, symbol_count, imbalance, top_deviating, best, worst);
    let r = ranking_block(ranking);
    let t = prompt_tail(tick, active);
    let ls = self_prompt_lines(tick, identity, dominant, symbol_count, imbalance, top_deviating, best, worst, ranking, active);
    assert(ls == h + r + t);
    lemma_head_lines(tick, identity, dominant, symbol_count, imbalance, top_deviating, best, worst);
    lemma_tail_lines(tick, active);
    lemma_tick_line(tick);
    lemma_best_line(best);
    lemma_worst_line(worst);
    assert(h[1] == tick_line(tick));
    assert(h[14] == best_line(best));
    assert(h[15] == worst_line(worst));
    assert forall|i: int| 0 <= i < r.len() implies single_line(#[trigger] r[i]) && !is_prompt_key(r[i]) by {
        if ranking.len() == 0 {
            lemma_first_char_neutral(r[i]);
        }
    }
    // every line is a single line
    assert forall|i: int| 0 <= i < ls.len() implies !(#[trigger] ls[i]).contains('\n') by {
        if i < 18 {
            assert(ls[i] == h[i]);
        } else if i < 18 + r.len() {
            assert(ls[i] == r[i - 18]);
        } else {
            assert(ls[i] == t[i - 18 - r.len()]);
        }
    }
    lemma_lines_of_join(ls);
    let m = ls.map_values(|l: Seq<char>| strip_cr(l));
    // lines other than the tick, best and worst lines are neutral after stripping
    assert forall|i: int| 0 <= i < m.len() && i != 1 && i != 14 && i != 15 implies !is_prompt_key(#[trigger] m[i]) by {
        assert(!is_prompt_key(ls[i])) by {
            if i < 18 {
                assert(ls[i] == h[i]);
            } else if i < 18 + r.len() {
                assert(ls[i] == r[i - 18]);
            } else {
                assert(ls[i] == t[i - 18 - r.len()]);
            }
        }
        lemma_strip_cr_prefix(ls[i], "Generated at tick:"@);
        lemma_strip_cr_prefix(ls[i], "Best action: action_"@);
        lemma_strip_cr_prefix(ls[i], "Worst action: action_"@);
    }
    let p2 = m.take(2);
    let p14 = m.take(14);
    let p15 = m.take(15);
    let p16 = m.take(16);
    // the first two lines
    assert(p2.drop_last() =~= m.take(1));
    assert(m.take(1).drop_last() =~= Seq::<Seq<char>>::empty());
    assert(m.take(1).last() == m[0]);
    assert(p2.last() == m[1]);
    assert(m[1] == tick_line(tick));
    assert(!is_prompt_key(m[0]));
    assert(prompt_state(Seq::<Seq<char>>::empty()) == (0u64, None::<u32>, None::<u32>));
    assert(prompt_state(m.take(1)) == (0u64, None::<u32>, None::<u32>));
    assert(prompt_state(p2) == (tick, None::<u32>, None::<u32>));
    // up to the best line nothing changes
    let mid = m.subrange(2, 14);
    assert forall|i: int| 0 <= i < mid.len() implies !is_prompt_key(#[trigger] mid[i]) by {
        assert(mid[i] == m[i + 2]);
    }
    lemma_prompt_state_neutral(p2, mid);
    assert(p2 + mid =~= p14);
    // the best and worst lines
    assert(p15.drop_last() =~= p14);
    assert(p15.last() == m[14]);
    assert(m[14] == best_line(best));
    assert(p16.drop_last() =~= p15);
    assert(p16.last() == m[15]);
    assert(m[15] == worst_line(worst));
    assert(prompt_state(p15) == (tick, summary_id(best), None::<u32>));
    assert(prompt_state(p16) == (tick, summary_id(best), summary_id(worst)));
    // the rest is neutral
    let rest = m.skip(16);
    assert forall|i: int| 0 <= i < rest.len() implies !is_prompt_key(#[trigger] rest[i]) by {
        assert(rest[i] == m[i + 16]);
    }
    lemma_prompt_state_neutral(p16, rest);
    assert(p16 + rest =~= m);
}

} // verus!
