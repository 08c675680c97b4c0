use vstd::prelude::*;

verus! {

/// What a phonetic key produces.
#[derive(Debug, Clone)]
pub enum BanglaOutput {
    /// Always the same text.
    Static(String),
    /// One text at the start of a syllable, another right after a consonant.
    Contextual { independent: String, dependent: String },
    /// Rules from a JSON grammar; the first matching rule wins, `fallback` is used when none match.
    Conditional { rules: Vec<ConditionalRule>, fallback: String },
}

/// A replacement that applies when all of its conditions hold.
#[derive(Debug, Clone)]
pub struct ConditionalRule {
    pub matches: Vec<MatchCond>,
    pub replace: String,
}

/// A condition on the roman character before (`Prefix`) or after (`Suffix`) a match.
#[derive(Debug, Clone)]
pub enum MatchCond {
    Prefix(ScopeCheck),
    Suffix(ScopeCheck),
}

/// The test that a condition applies to a neighbouring roman character.
#[derive(Debug, Clone)]
pub enum ScopeCheck {
    IsClass(CharClass),
    NotClass(CharClass),
    IsExact(String),
    NotExact(String),
}

/// Classes of roman characters.
#[derive(Debug, Clone, Copy, PartialEq, Eq, Structural)]
pub enum CharClass {
    Consonant,
    Vowel,
    Number,
    Punctuation,
}

/// Whether the Bangla text written so far ends in a consonant.
#[derive(Debug, Clone, Copy, PartialEq, Eq, Structural)]
pub enum OutputContext {
    Neutral,
    AfterConsonant,
}

/// A snapshot of the engine's editing state, kept so that a backspace can restore it.
#[derive(Debug, Clone)]
pub struct EngineState {
    pub prefix: Vec<char>,
    pub word_buffer: Vec<char>,
    pub context: OutputContext,
    pub last_roman: Option<char>,
}

/// The meaning of a `ScopeCheck`, over character sequences.
pub ghost enum ScopeSpec {
    IsClass(CharClass),
    NotClass(CharClass),
    IsExact(Seq<char>),
    NotExact(Seq<char>),
}

/// The meaning of a `MatchCond`.
pub ghost enum CondSpec {
    Prefix(ScopeSpec),
    Suffix(ScopeSpec),
}

/// The meaning of a `ConditionalRule`.
pub ghost struct RuleSpec {
    pub matches: Seq<CondSpec>,
    pub replace: Seq<char>,
}

/// The meaning of a `BanglaOutput`.
pub ghost enum OutputSpec {
    Static(Seq<char>),
    Contextual(Seq<char>, Seq<char>),
    Conditional(Seq<RuleSpec>, Seq<char>),
}

/// The meaning of an `EngineState`: the pending roman keys, the Bangla text
/// written so far, the context after it and the last roman key consumed.
pub ghost struct EditSpec {
    pub prefix: Seq<char>,
    pub word: Seq<char>,
    pub context: OutputContext,
    pub last_roman: Option<char>,
}

impl View for ScopeCheck {
    type V = ScopeSpec;

    open spec fn view(&self) -> ScopeSpec {
        match self {
            ScopeCheck::IsClass(c) => ScopeSpec::IsClass(*c),
            ScopeCheck::NotClass(c) => ScopeSpec::NotClass(*c),
            ScopeCheck::IsExact(v) => ScopeSpec::IsExact(v@),
            ScopeCheck::NotExact(v) => ScopeSpec::NotExact(v@),
        }
    }
}

impl View for MatchCond {
    type V = CondSpec;

    open spec fn view(&self) -> CondSpec {
        match self {
            MatchCond::Prefix(s) => CondSpec::Prefix(s@),
            MatchCond::Suffix(s) => CondSpec::Suffix(s@),
        }
    }
}

impl View for ConditionalRule {
    type V = RuleSpec;

    open spec fn view(&self) -> RuleSpec {
        RuleSpec { matches: self.matches@.map_values(|m: MatchCond| m@), replace: self.replace@ }
    }
}

impl View for BanglaOutput {
    type V = OutputSpec;

    open spec fn view(&self) -> OutputSpec {
        match self {
            BanglaOutput::Static(s) => OutputSpec::Static(s@),
            BanglaOutput::Contextual { independent, dependent } => OutputSpec::Contextual(
                independent@,
                dependent@,
            ),
            BanglaOutput::Conditional { rules, fallback } => OutputSpec::Conditional(
                rules@.map_values(|r: ConditionalRule| r@),
                fallback@,
            ),
        }
    }
}

impl View for EngineState {
    type V = EditSpec;

    open spec fn view(&self) -> EditSpec {
        EditSpec {
            prefix: self.prefix@,
            word: self.word_buffer@,
            context: self.context,
            last_roman: self.last_roman,
        }
    }
}

} // verus!
