//! Caveman output compression for LLM responses.
//!
//! The agent can ask the model to answer in terse "caveman" prose, dropping
//! articles, filler, pleasantries and hedging while keeping every technical
//! term, code block and error message exact. This module holds the intensity
//! setting and builds the system-prompt fragment that requests it.
use vstd::prelude::*;

use crate::text::{contains_seq, lemma_absent_by_prefix, occurs_at, occurs_once};

verus! {

/// Caveman output compression intensity.
#[derive(Debug, Clone, Copy, PartialEq, Eq, Structural)]
pub enum CavemanMode {
    /// Caveman disabled: normal verbose output.
    Off,
    /// No filler or hedging; keeps articles and full sentences.
    Lite,
    /// Drops articles, fragments allowed, short synonyms (the default when enabled).
    Full,
    /// Abbreviations, no conjunctions, arrows for causality.
    Ultra,
}

impl Default for CavemanMode {
    fn default() -> (r: Self)
        ensures
            r == CavemanMode::Off,
    {
        CavemanMode::Off
    }
}

impl CavemanMode {
    /// The lower-case name of the mode (its display form and its wire name).
    pub open spec fn name(self) -> Seq<char> {
        match self {
            CavemanMode::Off => "off"@,
            CavemanMode::Lite => "lite"@,
            CavemanMode::Full => "full"@,
            CavemanMode::Ultra => "ultra"@,
        }
    }

    /// The lower-case name of the mode: `off`, `lite`, `full` or `ultra`.
    pub fn to_string(&self) -> (r: String)
        ensures
            r@ == self.name(),
    {
        match self {
            CavemanMode::Off => String::from_str("off"),
            CavemanMode::Lite => String::from_str("lite"),
            CavemanMode::Full => String::from_str("full"),
            CavemanMode::Ultra => String::from_str("ultra"),
        }
    }

    /// Whether caveman compression is active, i.e. the mode is not `Off`.
    pub fn is_active(&self) -> (r: bool)
        ensures
            r == !(*self is Off),
    {
        !matches!(self, CavemanMode::Off)
    }
}

/// The intensity rules of an active mode.
pub open spec fn rules_for(mode: CavemanMode) -> Seq<char> {
    match mode {
        CavemanMode::Lite => RULES_LITE@,
        CavemanMode::Full => RULES_FULL@,
        CavemanMode::Ultra => RULES_ULTRA@,
        CavemanMode::Off => Seq::empty(),
    }
}

/// The full prompt fragment for an active mode: preamble, intensity heading,
/// intensity rules, auto-clarity and boundaries, separated by blank lines.
pub open spec fn prompt_text(mode: CavemanMode) -> Seq<char> {
    PREAMBLE@ + "\n\n## Intensity: "@ + mode.name() + "\n\n"@ + rules_for(mode) + "\n\n"@
        + AUTO_CLARITY@ + "\n\n"@ + BOUNDARIES@
}

/// Builds the caveman system-prompt injection for a given intensity:
/// `None` when the mode is `Off`, else the prompt fragment that is appended
/// to the base system prompt.
pub fn caveman_system_prompt(mode: CavemanMode) -> (r: Option<String>)
    ensures
        r is None <==> mode is Off,
        r matches Some(s) ==> s@ == prompt_text(mode),
{
    if !mode.is_active() {
        return None;
    }
    let rules = match mode {
        CavemanMode::Lite => RULES_LITE,
        CavemanMode::Full => RULES_FULL,
        _ => RULES_ULTRA,
    };
    let mut s = String::from_str(PREAMBLE);
    s.append("\n\n## Intensity: ");
    let name = mode.to_string();
    s.append(name.as_str());
    s.append("\n\n");
    s.append(rules);
    s.append("\n\n");
    s.append(AUTO_CLARITY);
    s.append("\n\n");
    s.append(BOUNDARIES);
    Some(s)
}

/// Two modes with the same name are the same mode: the name of a mode
/// identifies it, so a mode written out by name reads back as itself.
pub proof fn lemma_name_identifies_mode(a: CavemanMode, b: CavemanMode)
    requires
        a.name() == b.name(),
    ensures
        a == b,
{
    reveal_strlit("off");
    reveal_strlit("lite");
    reveal_strlit("full");
    reveal_strlit("ultra");
    assert("off"@.len() == 3 && "lite"@.len() == 4 && "full"@.len() == 4 && "ultra"@.len() == 5);
    assert("lite"@[0] == 'l' && "full"@[0] == 'f');
    if a != b {
        assert(a.name()[0] != b.name()[0] || a.name().len() != b.name().len());
    }
}

/// Every active prompt starts with the preamble, ends with the boundaries,
/// and holds its own intensity heading, its intensity rules and the
/// auto-clarity rule.
pub proof fn lemma_prompt_sections(mode: CavemanMode)
    requires
        !(mode is Off),
    ensures
        prompt_text(mode).take(PREAMBLE@.len() as int) == PREAMBLE@,
        prompt_text(mode).skip(prompt_text(mode).len() - BOUNDARIES@.len()) == BOUNDARIES@,
        contains_seq(prompt_text(mode), "## Intensity: "@ + mode.name()),
        contains_seq(prompt_text(mode), rules_for(mode)),
        contains_seq(prompt_text(mode), AUTO_CLARITY@),
{
    let p = prompt_text(mode);
    let a = PREAMBLE@ + "\n\n"@;
    let h = "## Intensity: "@ + mode.name();
    let b = a + h + "\n\n"@;
    let c = b + rules_for(mode) + "\n\n"@;
    let d = c + AUTO_CLARITY@ + "\n\n"@;
    assert(p =~= a + h + "\n\n"@ + rules_for(mode) + "\n\n"@ + AUTO_CLARITY@ + "\n\n"@ + BOUNDARIES@) by {
        reveal_strlit("\n\n## Intensity: ");
        reveal_strlit("\n\n");
        reveal_strlit("## Intensity: ");
    }
    assert(p.take(PREAMBLE@.len() as int) =~= PREAMBLE@);
    assert(p.skip(p.len() - BOUNDARIES@.len()) =~= BOUNDARIES@);
    assert(p.subrange(a.len() as int, (a.len() + h.len()) as int) =~= h);
    assert(p.subrange(b.len() as int, (b.len() + rules_for(mode).len()) as int) =~= rules_for(mode));
    assert(p.subrange(c.len() as int, (c.len() + AUTO_CLARITY@.len()) as int) =~= AUTO_CLARITY@);
}

/// The phrase that marks the rules of an active mode.
pub open spec fn key_phrase(mode: CavemanMode) -> Seq<char> {
    match mode {
        CavemanMode::Lite => "Keep articles and full sentences"@,
        CavemanMode::Full => "Drop articles, fragments OK"@,
        CavemanMode::Ultra => "Abbreviate"@,
        CavemanMode::Off => Seq::empty(),
    }
}

/// Whether `w` opens the rules or the key phrase of some active mode other
/// than `mode`.
spec fn opens_other_rules(mode: CavemanMode, w: Seq<char>) -> bool {
    ||| !(mode is Lite) && (w == RULES_LITE@.subrange(0, 6) || w == key_phrase(
        CavemanMode::Lite,
    ).subrange(0, 6))
    ||| !(mode is Full) && (w == RULES_FULL@.subrange(0, 6) || w == key_phrase(
        CavemanMode::Full,
    ).subrange(0, 6))
    ||| !(mode is Ultra) && (w == RULES_ULTRA@.subrange(0, 6) || w == key_phrase(
        CavemanMode::Ultra,
    ).subrange(0, 6))
}

#[verifier::rlimit(100)]
#[verifier::spinoff_prover]
proof fn lemma_prompt_text_facts(mode: CavemanMode)
    requires
        !(mode is Off),
    ensures
        occurs_once(prompt_text(mode), "Intensity: "@),
        contains_seq(prompt_text(mode), key_phrase(mode)),
        forall|other: CavemanMode|
            !(other is Off) && other != mode ==> !contains_seq(prompt_text(mode), rules_for(other))
                && !contains_seq(prompt_text(mode), key_phrase(other)),
{
    reveal_strlit("\
OUTPUT COMPRESSION — respond terse like smart caveman. \
All technical substance stay. Only fluff die.\n\
\n\
Core rules:\n\
- Drop: articles (a/an/the), filler (just/really/basically/actually/simply), \
pleasantries (sure/certainly/of course/happy to), hedging.\n\
- Fragments OK. Short synonyms (big not extensive, fix not \"implement a solution for\").\n\
- Technical terms exact. Code blocks unchanged. Errors quoted exact.\n\
- Pattern: [thing] [action] [reason]. [next step].");
    reveal_strlit("\
No filler or hedging. Keep articles and full sentences. Professional but tight.\n\
Example — \"Why React component re-render?\"\n\
Answer: \"Your component re-renders because you create a new object reference \
each render. Wrap it in `useMemo`.\"");
    reveal_strlit("\
Drop articles, fragments OK, short synonyms. Classic caveman.\n\
Example — \"Why React component re-render?\"\n\
Answer: \"New object ref each render. Inline object prop = new ref = re-render. \
Wrap in `useMemo`.\"");
    reveal_strlit("\
Abbreviate (DB/auth/config/req/res/fn/impl), strip conjunctions, \
arrows for causality (X → Y), one word when one word enough.\n\
Example — \"Why React component re-render?\"\n\
Answer: \"Inline obj prop → new ref → re-render. `useMemo`.\"");
    reveal_strlit("\
Auto-Clarity: drop caveman for security warnings, irreversible action \
confirmations, multi-step sequences where fragment order risks misread. \
Resume caveman after clear part done.");
    reveal_strlit("\
Boundaries: code blocks, commit messages, and JSON output must be \
written in normal form — compression applies to prose/explanations only.");
    reveal_strlit("\n\n## Intensity: ");
    reveal_strlit("\n\n");
    reveal_strlit("Intensity: ");
    reveal_strlit("lite");
    reveal_strlit("full");
    reveal_strlit("ultra");
    reveal_strlit("Keep articles and full sentences");
    reveal_strlit("Drop articles, fragments OK");
    reveal_strlit("Abbreviate");
    let p = prompt_text(mode);
    let k0: int = PREAMBLE@.len() as int + 5;
    assert(occurs_at(p, "Intensity: "@, k0)) by {
        assert(p.subrange(k0, k0 + 11) =~= "Intensity: "@);
    }
    assert forall|i: int, j: int|
        occurs_at(p, "Intensity: "@, i) && occurs_at(p, "Intensity: "@, j) implies i == j by {
        assert forall|m: int| 0 <= m && m + 3 <= p.len() && m != k0 implies #[trigger] p.subrange(
            m,
            m + 3,
        ) != "Intensity: "@.subrange(0, 3) by {
            assert(p.subrange(m, m + 3)[0] == p[m]);
            assert(p.subrange(m, m + 3)[1] == p[m + 1]);
            assert(p.subrange(m, m + 3)[2] == p[m + 2]);
        }
        if i != k0 {
            assert(p.subrange(i, i + 3) =~= p.subrange(i, i + 11).subrange(0, 3));
        }
        if j != k0 {
            assert(p.subrange(j, j + 3) =~= p.subrange(j, j + 11).subrange(0, 3));
        }
    }
    assert(contains_seq(p, "Intensity: "@));
    let r: int = PREAMBLE@.len() as int + 16 + mode.name().len() as int + 2;
    let off: int = if mode is Lite {
        22
    } else {
        0
    };
    assert(p.subrange(r + off, r + off + key_phrase(mode).len()) =~= key_phrase(mode));
    assert forall|i: int| 0 <= i && i + 6 <= p.len() implies !opens_other_rules(
        mode,
        #[trigger] p.subrange(i, i + 6),
    ) by {
        assert(p.subrange(i, i + 6)[0] == p[i + 0]);
        assert(p.subrange(i, i + 6)[1] == p[i + 1]);
        assert(p.subrange(i, i + 6)[2] == p[i + 2]);
        assert(p.subrange(i, i + 6)[3] == p[i + 3]);
        assert(p.subrange(i, i + 6)[4] == p[i + 4]);
        assert(p.subrange(i, i + 6)[5] == p[i + 5]);
    }
    assert forall|other: CavemanMode| !(other is Off) && other != mode implies !contains_seq(
        p,
        rules_for(other),
    ) && !contains_seq(p, key_phrase(other)) by {
        assert forall|i: int| 0 <= i && i + 6 <= p.len() implies #[trigger] p.subrange(i, i + 6)
            != rules_for(other).subrange(0, 6) by {
            assert(!opens_other_rules(mode, p.subrange(i, i + 6)));
        }
        lemma_absent_by_prefix(p, rules_for(other), 6);
        assert forall|i: int| 0 <= i && i + 6 <= p.len() implies #[trigger] p.subrange(i, i + 6)
            != key_phrase(other).subrange(0, 6) by {
            assert(!opens_other_rules(mode, p.subrange(i, i + 6)));
        }
        lemma_absent_by_prefix(p, key_phrase(other), 6);
    }
}

/// Prompts of different active modes differ. Each starts with the preamble,
/// names its intensity exactly once (in its own heading), and holds its own
/// intensity rules and key phrase and neither the rules nor the key phrase of
/// any other mode.
pub proof fn lemma_prompts_hold_only_own_rules(m1: CavemanMode, m2: CavemanMode)
    requires
        !(m1 is Off),
        !(m2 is Off),
        m1 != m2,
    ensures
        prompt_text(m1) != prompt_text(m2),
        prompt_text(m1).take(PREAMBLE@.len() as int) == PREAMBLE@,
        occurs_once(prompt_text(m1), "Intensity: "@),
        contains_seq(prompt_text(m1), "## Intensity: "@ + m1.name()),
        contains_seq(prompt_text(m1), rules_for(m1)),
        contains_seq(prompt_text(m1), key_phrase(m1)),
        !contains_seq(prompt_text(m1), rules_for(m2)),
        !contains_seq(prompt_text(m1), key_phrase(m2)),
{
    lemma_prompt_sections(m1);
    lemma_prompt_text_facts(m1);
    reveal_strlit("\n\n## Intensity: ");
    reveal_strlit("lite");
    reveal_strlit("full");
    reveal_strlit("ultra");
    let o: int = PREAMBLE@.len() as int + 16;
    assert(prompt_text(m1)[o] == m1.name()[0]);
    assert(prompt_text(m2)[o] == m2.name()[0]);
}

/// Opening of every compression prompt: the core caveman rules.
pub const PREAMBLE: &'static str = "\
OUTPUT COMPRESSION — respond terse like smart caveman. \
All technical substance stay. Only fluff die.\n\
\n\
Core rules:\n\
- Drop: articles (a/an/the), filler (just/really/basically/actually/simply), \
pleasantries (sure/certainly/of course/happy to), hedging.\n\
- Fragments OK. Short synonyms (big not extensive, fix not \"implement a solution for\").\n\
- Technical terms exact. Code blocks unchanged. Errors quoted exact.\n\
- Pattern: [thing] [action] [reason]. [next step].";

/// Intensity rules for [`CavemanMode::Lite`].
pub const RULES_LITE: &'static str = "\
No filler or hedging. Keep articles and full sentences. Professional but tight.\n\
Example — \"Why React component re-render?\"\n\
Answer: \"Your component re-renders because you create a new object reference \
each render. Wrap it in `useMemo`.\"";

/// Intensity rules for [`CavemanMode::Full`].
pub const RULES_FULL: &'static str = "\
Drop articles, fragments OK, short synonyms. Classic caveman.\n\
Example — \"Why React component re-render?\"\n\
Answer: \"New object ref each render. Inline object prop = new ref = re-render. \
Wrap in `useMemo`.\"";

/// Intensity rules for [`CavemanMode::Ultra`].
pub const RULES_ULTRA: &'static str = "\
Abbreviate (DB/auth/config/req/res/fn/impl), strip conjunctions, \
arrows for causality (X → Y), one word when one word enough.\n\
Example — \"Why React component re-render?\"\n\
Answer: \"Inline obj prop → new ref → re-render. `useMemo`.\"";

/// When to fall back to normal prose.
pub const AUTO_CLARITY: &'static str = "\
Auto-Clarity: drop caveman for security warnings, irreversible action \
confirmations, multi-step sequences where fragment order risks misread. \
Resume caveman after clear part done.";

/// Output that always keeps its normal form.
pub const BOUNDARIES: &'static str = "\
Boundaries: code blocks, commit messages, and JSON output must be \
written in normal form — compression applies to prose/explanations only.";

} // verus!
