//! Keyword identification for the template language: the tokens a line may
//! hold and the identities of the sections that group lines.

use vstd::prelude::*;

use crate::strings::str_eq;
use vstd::string::StrSliceExecFns;

verus! {

/// Mathematical model of a [`Token`].
pub enum TokenView {
    DeclareFolder,
    DeclareFile,
    CopyAction,
    Assign,
    DeferAction,
    Arg(Seq<char>),
    Skip,
}

/// One word of a template line, classified.
#[derive(Clone, Debug, PartialEq, Eq)]
pub enum Token {
    DeclareFolder,
    DeclareFile,
    CopyAction,
    Assign,
    DeferAction,
    Arg(String),
    /// Plain text: paths, command words and arguments.
    Skip,
}

impl View for Token {
    type V = TokenView;

    open spec fn view(&self) -> TokenView {
        match self {
            Token::DeclareFolder => TokenView::DeclareFolder,
            Token::DeclareFile => TokenView::DeclareFile,
            Token::CopyAction => TokenView::CopyAction,
            Token::Assign => TokenView::Assign,
            Token::DeferAction => TokenView::DeferAction,
            Token::Arg(s) => TokenView::Arg(s@),
            Token::Skip => TokenView::Skip,
        }
    }
}

impl DeepView for Token {
    type V = TokenView;

    open spec fn deep_view(&self) -> TokenView {
        self.view()
    }
}

/// Which token a word denotes.
pub open spec fn token_of(s: Seq<char>) -> TokenView {
    if s == "FOLDER"@ || s == "FLDR"@ {
        TokenView::DeclareFolder
    } else if s == "FILE"@ {
        TokenView::DeclareFile
    } else if s == "COPY"@ || s == "COPY_INTO"@ {
        TokenView::CopyAction
    } else if s == "DEFER"@ {
        TokenView::DeferAction
    } else if s == "="@ {
        TokenView::Assign
    } else if s.len() >= 1 && s[0] == '#' {
        TokenView::Arg(s)
    } else {
        TokenView::Skip
    }
}

impl Token {
    /// Classifies one word of a line.
    pub fn from(value: String) -> (t: Token)
        ensures
            t@ == token_of(value@),
    {
        if str_eq(value.as_str(), "FOLDER") || str_eq(value.as_str(), "FLDR") {
            Token::DeclareFolder
        } else if str_eq(value.as_str(), "FILE") {
            Token::DeclareFile
        } else if str_eq(value.as_str(), "COPY") || str_eq(value.as_str(), "COPY_INTO") {
            Token::CopyAction
        } else if str_eq(value.as_str(), "DEFER") {
            Token::DeferAction
        } else if str_eq(value.as_str(), "=") {
            Token::Assign
        } else if value.unicode_len() >= 1 && value.as_str().get_char(0) == '#' {
            Token::Arg(value)
        } else {
            Token::Skip
        }
    }
}

/// Mathematical model of a [`SectionIdentity`].
#[derive(Clone, Copy, Debug, PartialEq, Eq, Structural)]
pub enum SectionIdentity {
    CurrentWorkingDirectory,
    Demostration,
    Scripts,
    Variables,
    UnknownSection,
}

/// Which section a header word opens.
pub open spec fn section_of(s: Seq<char>) -> SectionIdentity {
    if s == "__CWD"@ || s == "__FILE_STRUCT"@ {
        SectionIdentity::CurrentWorkingDirectory
    } else if s == "__DEMO"@ || s == "__EXAMPLES"@ {
        SectionIdentity::Demostration
    } else if s == "__SCRIPTS"@ || s == "__CMD"@ {
        SectionIdentity::Scripts
    } else if s == "__VAR"@ || s == "__VARIABLES"@ || s == "__ARGS"@ {
        SectionIdentity::Variables
    } else {
        SectionIdentity::UnknownSection
    }
}

/// Raised when a section header names no known section.
#[derive(Clone, Debug)]
pub struct UnknownSectionError {
    at: String,
}

impl View for UnknownSectionError {
    type V = Seq<char>;

    closed spec fn view(&self) -> Seq<char> {
        self.at@
    }
}

impl UnknownSectionError {
    /// The header word that named no known section.
    pub fn location(&self) -> (r: &str)
        ensures
            r@ == self@,
    {
        self.at.as_str()
    }
}

impl SectionIdentity {
    /// Classifies one section header word.
    pub fn from(value: String) -> (k: SectionIdentity)
        ensures
            k == section_of(value@),
    {
        if str_eq(value.as_str(), "__CWD") || str_eq(value.as_str(), "__FILE_STRUCT") {
            SectionIdentity::CurrentWorkingDirectory
        } else if str_eq(value.as_str(), "__DEMO") || str_eq(value.as_str(), "__EXAMPLES") {
            SectionIdentity::Demostration
        } else if str_eq(value.as_str(), "__SCRIPTS") || str_eq(value.as_str(), "__CMD") {
            SectionIdentity::Scripts
        } else if str_eq(value.as_str(), "__VAR") || str_eq(value.as_str(), "__VARIABLES")
            || str_eq(value.as_str(), "__ARGS") {
            SectionIdentity::Variables
        } else {
            SectionIdentity::UnknownSection
        }
    }

    /// Rejects the unknown section, carrying the header word `at` that named
    /// it; accepts every known one.
    pub fn unknown(&self, at: String) -> (r: Result<(), UnknownSectionError>)
        ensures
            r is Err <==> *self is UnknownSection,
            r is Err ==> r->Err_0@ == at@,
    {
        match self {
            SectionIdentity::UnknownSection => Err(UnknownSectionError { at }),
            _ => Ok(()),
        }
    }
}

} // verus!
