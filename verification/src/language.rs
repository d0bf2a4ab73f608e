//! The target scripting language of a generated notebook, together with the
//! metadata constants (file extension, MIME type, display name) that each
//! language carries.

use vstd::prelude::*;
use vstd::string::*;
use crate::text::str_eq;

verus! {

/// The scripting language a notebook is generated for.
#[derive(PartialEq, Eq, Structural, Clone, Copy, Debug)]
pub enum Language {
    Python,
    Julia,
}

/// Returned when a language selector is neither `python` nor `julia`.
#[derive(Debug)]
pub struct LanguageParseError {
    /// The text that failed to parse.
    pub attempted: String,
}

/// The `language_info` block of notebook metadata.
#[derive(Debug, Clone)]
pub struct LanguageInfo {
    pub file_extension: String,
    pub mimetype: String,
    pub name: String,
}

/// The language identifier, as notebook metadata spells it.
pub open spec fn spec_name(l: Language) -> Seq<char> {
    match l {
        Language::Python => "python"@,
        Language::Julia => "julia"@,
    }
}

/// The file extension advertised for the language.
pub open spec fn spec_file_extension(l: Language) -> Seq<char> {
    match l {
        Language::Python => ".py"@,
        Language::Julia => ".jl"@,
    }
}

/// The MIME type advertised for the language.
pub open spec fn spec_mimetype(l: Language) -> Seq<char> {
    match l {
        Language::Python => "application/python"@,
        Language::Julia => "application/julia"@,
    }
}

impl Language {
    /// Parses a language selector: exactly `python` or `julia`; anything
    /// else is reported back in the error.
    pub fn from_str(s: &str) -> (r: Result<Language, LanguageParseError>)
        ensures
            s@ == "python"@ ==> r == Ok::<Language, LanguageParseError>(Language::Python),
            s@ == "julia"@ ==> r == Ok::<Language, LanguageParseError>(Language::Julia),
            s@ != "python"@ && s@ != "julia"@ ==> (r matches Err(e) && e.attempted@ == s@),
    {
        proof {
            reveal_strlit("python");
            reveal_strlit("julia");
            assert("python"@.len() != "julia"@.len());
        }
        if str_eq(s, "python") {
            Ok(Language::Python)
        } else if str_eq(s, "julia") {
            Ok(Language::Julia)
        } else {
            Err(LanguageParseError { attempted: s.to_owned() })
        }
    }

    /// The language identifier used in notebook metadata.
    pub fn name(&self) -> (r: &'static str)
        ensures
            r@ == spec_name(*self),
    {
        match self {
            Language::Python => "python",
            Language::Julia => "julia",
        }
    }

    /// The file extension for source files of this language.
    pub fn file_extension(&self) -> (r: &'static str)
        ensures
            r@ == spec_file_extension(*self),
    {
        match self {
            Language::Python => ".py",
            Language::Julia => ".jl",
        }
    }

    /// The MIME type for source files of this language.
    pub fn mimetype(&self) -> (r: &'static str)
        ensures
            r@ == spec_mimetype(*self),
    {
        match self {
            Language::Python => "application/python",
            Language::Julia => "application/julia",
        }
    }

    /// The `language_info` metadata block for this language.
    pub fn info(&self) -> (r: LanguageInfo)
        ensures
            r.file_extension@ == spec_file_extension(*self),
            r.mimetype@ == spec_mimetype(*self),
            r.name@ == spec_name(*self),
    {
        LanguageInfo {
            file_extension: String::from_str(self.file_extension()),
            mimetype: String::from_str(self.mimetype()),
            name: String::from_str(self.name()),
        }
    }
}

impl LanguageParseError {
    /// A human-readable description of the failure.
    pub fn message(&self) -> (m: String)
        ensures
            m@ == "Attempted to parse "@ + self.attempted@
                + ", but expected 'julia' or 'python'"@,
    {
        let mut m = String::from_str("Attempted to parse ");
        m.append(self.attempted.as_str());
        m.append(", but expected 'julia' or 'python'");
        m
    }
}

} // verus!
