//! The code patterns: four regular expressions that betray source code in a
//! text, compiled once and then used on every text.
//!
//! Compiling and matching are the `regex` crate's work and are taken on
//! trust.  Which patterns compile and what a pattern matches is not spelled
//! out here: both are named, as functions of the pattern and of the pattern
//! and the text, and everything else is stated over those names.
//!
//! The names speak of expressions as `Regex::new` makes them.  The crate's
//! builder makes, from the same pattern, expressions that answer otherwise
//! (without regard to case, say).  A [`CodePattern`] is therefore made by
//! `Regex::new` and in no other way.

use vstd::prelude::*;
use regex::Regex;
use crate::strings::string_views;

verus! {

/// A compiled regular expression of the `regex` crate, as an opaque type.
#[verifier::external_type_specification]
#[verifier::external_body]
pub struct ExRegex(Regex);

/// The `regex` crate's error, as an opaque type.
#[verifier::external_type_specification]
#[verifier::external_body]
pub struct ExRegexError(regex::Error);

/// The pattern that a compiled expression was compiled from: what
/// `Regex::as_str` returns.
pub uninterp spec fn regex_source(re: Regex) -> Seq<char>;

/// Whether an expression is as `Regex::new` makes it: compiled with the
/// options that the crate sets by default, and with nothing else.
pub uninterp spec fn regex_plain(re: Regex) -> bool;

/// Whether `Regex::new` accepts `pattern`: it is a valid pattern, and what
/// it compiles to stays within the size that the crate allows by default.
pub uninterp spec fn regex_compiles(pattern: Seq<char>) -> bool;

/// Whether `pattern` occurs anywhere in `text`: what `Regex::is_match`
/// returns for an expression that `Regex::new` made from `pattern`.
pub uninterp spec fn regex_found(pattern: Seq<char>, text: Seq<char>) -> bool;

/// `Regex::new`: whether it hands back an expression depends on the pattern
/// alone, and an expression that it hands back is plain and was compiled from
/// the pattern given.
pub assume_specification[ Regex::new ](re: &str) -> (compiled: Result<Regex, regex::Error>)
    ensures
        compiled is Ok <==> regex_compiles(re@),
        compiled matches Ok(c) ==> regex_source(c) == re@ && regex_plain(c),
;

/// `Regex::is_match`, for a plain expression: whether the expression's
/// pattern occurs in the text.  Of an expression that the builder made with
/// other options nothing is said.
pub assume_specification[ Regex::is_match ](this: &Regex, haystack: &str) -> (found: bool)
    ensures
        regex_plain(*this) ==> found == regex_found(regex_source(*this), haystack@),
;

/// `Regex::as_str`: the pattern that the expression was compiled from.
pub assume_specification<'a>[ Regex::as_str ](this: &'a Regex) -> (source: &'a str)
    ensures
        source@ == regex_source(*this),
;

/// The number of code patterns.
pub const PATTERN_COUNT: usize = 4;

/// Something that looks like a function definition: `fn`, a name, and a
/// parameter list in round brackets.
pub open spec fn function_pattern() -> Seq<char> {
    ".*fn [[:alpha:]]{1}[[:word:]]*\\(.*\\)"@
}

/// Something that looks like a binding: `let` or `let mut`, a name, ` = `,
/// and a semicolon after it.
pub open spec fn binding_pattern() -> Seq<char> {
    ".*let( mut)? [[:alpha:]]{1}[[:word:]]*.* = .*;"@
}

/// An `if let` whose right side is a `match`.
pub open spec fn if_let_match_pattern() -> Seq<char> {
    ".*if let .* = match"@
}

/// Something that looks like a macro call: a name, `!`, and arguments in
/// brackets of any kind.
pub open spec fn macro_call_pattern() -> Seq<char> {
    ".*[[:alpha:]]{1}[[:word:]]*! {0,1}[\\{\\(\\[].*[\\)\\]\\}]"@
}

/// The four code patterns, in the order of their columns.
pub open spec fn standard_sources() -> Seq<Seq<char>> {
    seq![function_pattern(), binding_pattern(), if_let_match_pattern(), macro_call_pattern()]
}

/// 1 for `true`, 0 for `false`.
pub open spec fn flag_of(b: bool) -> u64 {
    if b {
        1
    } else {
        0
    }
}

/// The flags of `text`: for each pattern, whether it occurs in the text.
pub open spec fn pattern_flags(sources: Seq<Seq<char>>, text: Seq<char>) -> Seq<u64> {
    Seq::new(sources.len(), |k: int| flag_of(regex_found(sources[k], text)))
}

/// The pattern that did not compile.
#[derive(Debug, Clone, Copy, PartialEq, Eq, Structural)]
pub enum PatternError {
    Function,
    Binding,
    IfLetMatch,
    MacroCall,
}

/// One compiled pattern, as `Regex::new` makes it.
pub struct CodePattern {
    compiled: Regex,
}

impl CodePattern {
    #[verifier::type_invariant]
    spec fn made_plain(&self) -> bool {
        regex_plain(self.compiled)
    }

    /// The pattern that this was compiled from.
    pub closed spec fn source(&self) -> Seq<char> {
        regex_source(self.compiled)
    }

    /// Compiles `pattern`.  This succeeds exactly for the patterns that the
    /// `regex` crate accepts.
    pub fn compile(pattern: &str) -> (made: Result<CodePattern, regex::Error>)
        ensures
            made is Ok <==> regex_compiles(pattern@),
            made matches Ok(p) ==> p.source() == pattern@,
    {
        match Regex::new(pattern) {
            Ok(compiled) => Ok(CodePattern { compiled }),
            Err(e) => Err(e),
        }
    }

    /// The pattern, as it was written.
    pub fn text(&self) -> (text: &str)
        ensures
            text@ == self.source(),
    {
        self.compiled.as_str()
    }

    /// Whether the pattern occurs anywhere in `text`.
    pub fn found_in(&self, text: &str) -> (found: bool)
        ensures
            found == regex_found(self.source(), text@),
    {
        proof {
            use_type_invariant(self);
        }
        self.compiled.is_match(text)
    }
}

/// The compiled code patterns.
pub struct CodePatterns {
    function: CodePattern,
    binding: CodePattern,
    if_let_match: CodePattern,
    macro_call: CodePattern,
}

/// All four code patterns compile.
pub open spec fn standard_patterns_compile() -> bool {
    forall|k: int| 0 <= k < 4 ==> regex_compiles(#[trigger] standard_sources()[k])
}

/// 1 for `true`, 0 for `false`.
pub fn bool_to_flag(b: bool) -> (flag: u64)
    ensures
        flag == flag_of(b),
{
    if b {
        1
    } else {
        0
    }
}

/// The row of flags for the four answers, in the order of the patterns.
pub fn flags_of(function: bool, binding: bool, if_let_match: bool, macro_call: bool) -> (row: Vec<
    u64,
>)
    ensures
        row@ == seq![
            flag_of(function),
            flag_of(binding),
            flag_of(if_let_match),
            flag_of(macro_call),
        ],
{
    let mut row: Vec<u64> = Vec::new();
    row.push(bool_to_flag(function));
    row.push(bool_to_flag(binding));
    row.push(bool_to_flag(if_let_match));
    row.push(bool_to_flag(macro_call));
    assert(row@ =~= seq![
        flag_of(function),
        flag_of(binding),
        flag_of(if_let_match),
        flag_of(macro_call),
    ]);
    row
}

impl CodePatterns {
    /// The patterns that the four expressions were compiled from.
    pub closed spec fn sources(&self) -> Seq<Seq<char>> {
        seq![
            self.function.source(),
            self.binding.source(),
            self.if_let_match.source(),
            self.macro_call.source(),
        ]
    }

    /// There are four patterns.
    pub proof fn lemma_four(&self)
        ensures
            self.sources().len() == PATTERN_COUNT,
    {
    }

    /// Compiles the four code patterns.  This succeeds exactly if all four
    /// compile; where one does not, the error names the first that does not.
    pub fn new() -> (made: Result<CodePatterns, PatternError>)
        ensures
            made is Ok <==> standard_patterns_compile(),
            match made {
                Ok(p) => p.sources() == standard_sources(),
                Err(PatternError::Function) => !regex_compiles(function_pattern()),
                Err(PatternError::Binding) => regex_compiles(function_pattern())
                    && !regex_compiles(binding_pattern()),
                Err(PatternError::IfLetMatch) => regex_compiles(function_pattern())
                    && regex_compiles(binding_pattern()) && !regex_compiles(
                    if_let_match_pattern(),
                ),
                Err(PatternError::MacroCall) => regex_compiles(function_pattern())
                    && regex_compiles(binding_pattern()) && regex_compiles(if_let_match_pattern())
                    && !regex_compiles(macro_call_pattern()),
            },
    {
        let function = CodePattern::compile(".*fn [[:alpha:]]{1}[[:word:]]*\\(.*\\)");
        let binding = CodePattern::compile(".*let( mut)? [[:alpha:]]{1}[[:word:]]*.* = .*;");
        let if_let_match = CodePattern::compile(".*if let .* = match");
        let macro_call = CodePattern::compile(
            ".*[[:alpha:]]{1}[[:word:]]*! {0,1}[\\{\\(\\[].*[\\)\\]\\}]",
        );
        proof {
            let all = standard_sources();
            assert(all[0] == function_pattern() && all[1] == binding_pattern() && all[2]
                == if_let_match_pattern() && all[3] == macro_call_pattern());
        }
        CodePatterns::from_compiled(function, binding, if_let_match, macro_call)
    }

    /// The patterns from four attempts to compile one each.  All four must
    /// have succeeded; otherwise the error names the first that failed.
    pub fn from_compiled(
        function: Result<CodePattern, regex::Error>,
        binding: Result<CodePattern, regex::Error>,
        if_let_match: Result<CodePattern, regex::Error>,
        macro_call: Result<CodePattern, regex::Error>,
    ) -> (made: Result<CodePatterns, PatternError>)
        ensures
            match made {
                Ok(p) => {
                    &&& function matches Ok(f) && binding matches Ok(b) && if_let_match matches Ok(
                        i,
                    ) && macro_call matches Ok(m) && p.sources() == seq![
                        f.source(),
                        b.source(),
                        i.source(),
                        m.source(),
                    ]
                },
                Err(PatternError::Function) => function is Err,
                Err(PatternError::Binding) => function is Ok && binding is Err,
                Err(PatternError::IfLetMatch) => function is Ok && binding is Ok
                    && if_let_match is Err,
                Err(PatternError::MacroCall) => function is Ok && binding is Ok
                    && if_let_match is Ok && macro_call is Err,
            },
    {
        let function = match function {
            Ok(re) => re,
            Err(_) => {
                return Err(PatternError::Function);
            },
        };
        let binding = match binding {
            Ok(re) => re,
            Err(_) => {
                return Err(PatternError::Binding);
            },
        };
        let if_let_match = match if_let_match {
            Ok(re) => re,
            Err(_) => {
                return Err(PatternError::IfLetMatch);
            },
        };
        let macro_call = match macro_call {
            Ok(re) => re,
            Err(_) => {
                return Err(PatternError::MacroCall);
            },
        };
        Ok(CodePatterns { function, binding, if_let_match, macro_call })
    }

    /// The four patterns, as they were written.
    pub fn pattern_texts(&self) -> (texts: Vec<String>)
        ensures
            string_views(texts@) == self.sources(),
    {
        let mut texts: Vec<String> = Vec::new();
        texts.push(self.function.text().to_owned());
        texts.push(self.binding.text().to_owned());
        texts.push(self.if_let_match.text().to_owned());
        texts.push(self.macro_call.text().to_owned());
        assert(string_views(texts@) =~= self.sources());
        texts
    }

    /// The flags of one text: for each pattern, 1 if it occurs in the text
    /// and 0 if not.
    pub fn flags(&self, text: &str) -> (row: Vec<u64>)
        ensures
            row@ == pattern_flags(self.sources(), text@),
    {
        let row = flags_of(
            self.function.found_in(text),
            self.binding.found_in(text),
            self.if_let_match.found_in(text),
            self.macro_call.found_in(text),
        );
        assert(row@ =~= pattern_flags(self.sources(), text@));
        row
    }
}

} // verus!
