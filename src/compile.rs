use vstd::prelude::*;

verus! {

/// The toolchain that builds an example.
#[derive(Clone, Copy, Debug, PartialEq, Eq, Structural, Hash)]
pub enum Toolchain {
    /// `make` with clang, for C sources.
    Clang,
    /// The selfie compiler, for C* sources.
    Selfie,
    /// `cross build` for the RISC-V target, for Rust sources.
    Cargo,
}

#[derive(Clone, Copy, Debug, PartialEq, Eq, Structural, Hash)]
pub enum CompileError {
    UnsupportedCompiler,
    NotASourceFile,
    InvalidPath,
    NoParentDirectory,
    OutsideExamples,
    Missing,
    /// The toolchain's command could not be run.
    CommandFailed(Toolchain),
    /// The compiled binary could not be copied to its destination.
    CopyFailed,
}

impl CompileError {
    pub open spec fn spec_message(self) -> Seq<char> {
        match self {
            CompileError::UnsupportedCompiler => "compiler is not supported"@,
            CompileError::NotASourceFile => "file is not a C or Rust source file"@,
            CompileError::InvalidPath => "is not a valid file path"@,
            CompileError::NoParentDirectory => "choose a source file from ./symbolic"@,
            CompileError::OutsideExamples => "source file has to be in ./symbolic"@,
            CompileError::Missing => "example has to exist on file system"@,
            CompileError::CommandFailed(Toolchain::Clang) => "C compile command was not successful"@,
            CompileError::CommandFailed(Toolchain::Selfie) => "Selfie C* compile command was not successful"@,
            CompileError::CommandFailed(Toolchain::Cargo) => "Rust compile command was not successful"@,
            CompileError::CopyFailed => "unable to copy compilation result to destination"@,
        }
    }

    /// The one-line description of the error.
    pub fn message(&self) -> (r: &'static str)
        ensures
            r@ == self.spec_message(),
    {
        match self {
            CompileError::UnsupportedCompiler => "compiler is not supported",
            CompileError::NotASourceFile => "file is not a C or Rust source file",
            CompileError::InvalidPath => "is not a valid file path",
            CompileError::NoParentDirectory => "choose a source file from ./symbolic",
            CompileError::OutsideExamples => "source file has to be in ./symbolic",
            CompileError::Missing => "example has to exist on file system",
            CompileError::CommandFailed(Toolchain::Clang) => "C compile command was not successful",
            CompileError::CommandFailed(Toolchain::Selfie) => "Selfie C* compile command was not successful",
            CompileError::CommandFailed(Toolchain::Cargo) => "Rust compile command was not successful",
            CompileError::CopyFailed => "unable to copy compilation result to destination",
        }
    }
}

/// Whether `s` reads `lit`.
fn str_is(s: &str, lit: &str) -> (r: bool)
    ensures
        r == (s@ == lit@),
{
    let a = s.to_owned();
    let b = lit.to_owned();
    a == b
}

/// The toolchain for a source file with this extension and the requested
/// compiler: C sources build with selfie or with clang (the default), Rust
/// sources with cargo whatever was requested.
pub fn compile_example(extension: Option<&str>, compiler: Option<&str>) -> (r: Result<
    Toolchain,
    CompileError,
>)
    ensures
        match extension {
            Some(e) => if e@ == "c"@ {
                match compiler {
                    None => r == Ok::<Toolchain, CompileError>(Toolchain::Clang),
                    Some(c) => if c@ == "selfie"@ {
                        r == Ok::<Toolchain, CompileError>(Toolchain::Selfie)
                    } else if c@ == "clang"@ {
                        r == Ok::<Toolchain, CompileError>(Toolchain::Clang)
                    } else {
                        r == Err::<Toolchain, CompileError>(CompileError::UnsupportedCompiler)
                    },
                }
            } else if e@ == "rs"@ {
                r == Ok::<Toolchain, CompileError>(Toolchain::Cargo)
            } else {
                r == Err::<Toolchain, CompileError>(CompileError::NotASourceFile)
            },
            None => r == Err::<Toolchain, CompileError>(CompileError::NotASourceFile),
        },
{
    match extension {
        Some(e) => {
            if str_is(e, "c") {
                match compiler {
                    None => Ok(Toolchain::Clang),
                    Some(c) => {
                        if str_is(c, "selfie") {
                            Ok(Toolchain::Selfie)
                        } else if str_is(c, "clang") {
                            Ok(Toolchain::Clang)
                        } else {
                            Err(CompileError::UnsupportedCompiler)
                        }
                    },
                }
            } else if str_is(e, "rs") {
                Ok(Toolchain::Cargo)
            } else {
                Err(CompileError::NotASourceFile)
            }
        },
        None => Err(CompileError::NotASourceFile),
    }
}

/// Checks a source file from what the file system reports: its
/// canonical parent directory (`None` when the path cannot be made
/// canonical, `Some(None)` when it has no parent), the canonical examples
/// directory, and whether the file exists.
pub fn validate_example(canonical_parent: Option<Option<&str>>, examples_dir: &str, exists: bool) -> (r:
    Result<(), CompileError>)
    ensures
        match canonical_parent {
            None => r == Err::<(), CompileError>(CompileError::InvalidPath),
            Some(None) => r == Err::<(), CompileError>(CompileError::NoParentDirectory),
            Some(Some(p)) => if p@ != examples_dir@ {
                r == Err::<(), CompileError>(CompileError::OutsideExamples)
            } else if !exists {
                r == Err::<(), CompileError>(CompileError::Missing)
            } else {
                r == Ok::<(), CompileError>(())
            },
        },
{
    match canonical_parent {
        None => Err(CompileError::InvalidPath),
        Some(None) => Err(CompileError::NoParentDirectory),
        Some(Some(p)) => {
            if !str_is(p, examples_dir) {
                Err(CompileError::OutsideExamples)
            } else if !exists {
                Err(CompileError::Missing)
            } else {
                Ok(())
            }
        },
    }
}

} // verus!
