use vstd::prelude::*;

verus! {

/// A position in a source file; rows and columns count from 1.
#[derive(Clone, Copy, Debug, PartialEq, Eq, Structural)]
pub struct Loc {
    pub file_index: usize,
    pub row: usize,
    pub col: usize,
}

impl Loc {
    /// The first character of the file with the given index.
    pub fn start_of_file(file_index: usize) -> (r: Loc)
        ensures
            r == (Loc { file_index, row: 1, col: 1 }),
    {
        Loc { file_index, row: 1, col: 1 }
    }
}

/// A violation found by the analyzer.
#[derive(Debug)]
pub enum AnalyzerErr {
    /// The program breaks the stack-effect rules.
    TypeErr(String, Loc),
    /// A `cmperr` item fired, or an internal impossibility was met.
    CompilerErr(String, Loc),
}

/// The two kinds of analyzer errors, as the contracts speak of them.
#[derive(Clone, Copy, Debug, PartialEq, Eq, Structural)]
pub enum ErrKind {
    Type,
    Compiler,
}

impl AnalyzerErr {
    pub open spec fn kind(&self) -> ErrKind {
        match self {
            AnalyzerErr::TypeErr(..) => ErrKind::Type,
            AnalyzerErr::CompilerErr(..) => ErrKind::Compiler,
        }
    }

    /// Where the error was found, as the contracts speak of it.
    pub open spec fn at(&self) -> Loc {
        match self {
            AnalyzerErr::TypeErr(_, l) => *l,
            AnalyzerErr::CompilerErr(_, l) => *l,
        }
    }

    /// The error's message.
    pub open spec fn message(&self) -> Seq<char> {
        match self {
            AnalyzerErr::TypeErr(m, _) => m@,
            AnalyzerErr::CompilerErr(m, _) => m@,
        }
    }

    /// Where the error was found.
    pub fn loc(&self) -> (r: Option<Loc>)
        ensures
            r == Some(match self {
                AnalyzerErr::TypeErr(_, l) => *l,
                AnalyzerErr::CompilerErr(_, l) => *l,
            }),
    {
        match self {
            AnalyzerErr::TypeErr(_, l) => Some(*l),
            AnalyzerErr::CompilerErr(_, l) => Some(*l),
        }
    }
}

} // verus!
