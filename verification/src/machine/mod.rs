//! What is asked of the code generator once a module is lowered: the kind of
//! output, the file it goes to by default, and the level of optimisation.

use crate::text::same_text;
use vstd::prelude::*;

verus! {

/// The kinds of output that a compilation can be asked for.
#[derive(Clone, Copy, Debug, PartialEq, Eq, Structural)]
pub enum OutputKind {
    /// An object file.
    Object,
    /// An assembly file.
    Assembly,
    /// The tokens of the source text.
    Tokens,
    /// The syntax tree.
    Ast,
    /// The bitcode of the module.
    Bitcode,
    /// The intermediate representation of the module, as text.
    Ir,
}

/// The two file formats that the code generator emits.
#[derive(Clone, Copy, Debug, PartialEq, Eq, Structural)]
pub enum CodeGenFileType {
    AssemblyFile,
    ObjectFile,
}

/// The two levels of optimisation that the code generator is asked for.
#[derive(Clone, Copy, Debug, PartialEq, Eq, Structural)]
pub enum OptimisationLevel {
    Disabled,
    Aggressive,
}

/// The kind of output that a name asks for. A name that asks for none of the
/// others asks for an object file.
pub open spec fn output_kind_of(name: Seq<char>) -> OutputKind {
    if name == "asm"@ {
        OutputKind::Assembly
    } else if name == "tokens"@ {
        OutputKind::Tokens
    } else if name == "ast"@ {
        OutputKind::Ast
    } else if name == "bc"@ {
        OutputKind::Bitcode
    } else if name == "ll"@ {
        OutputKind::Ir
    } else {
        OutputKind::Object
    }
}

impl OutputKind {
    /// The kind of output that `name` asks for.
    pub fn from_name(name: &str) -> (kind: OutputKind)
        ensures
            kind == output_kind_of(name@),
    {
        if same_text(name, "asm") {
            OutputKind::Assembly
        } else if same_text(name, "tokens") {
            OutputKind::Tokens
        } else if same_text(name, "ast") {
            OutputKind::Ast
        } else if same_text(name, "bc") {
            OutputKind::Bitcode
        } else if same_text(name, "ll") {
            OutputKind::Ir
        } else {
            OutputKind::Object
        }
    }

    /// The extension of the file that the output goes to where none is
    /// named: `s` for assembly, `bc` for bitcode, and `o` for all others.
    pub fn extension(&self) -> (extension: &'static str)
        ensures
            extension@ == match self {
                OutputKind::Assembly => "s"@,
                OutputKind::Bitcode => "bc"@,
                _ => "o"@,
            },
    {
        match self {
            OutputKind::Assembly => "s",
            OutputKind::Bitcode => "bc",
            _ => "o",
        }
    }

    /// The file format that the code generator is asked for: assembly where
    /// assembly is asked for, an object file in all other cases.
    pub fn file_type(&self) -> (file_type: CodeGenFileType)
        ensures
            file_type == match self {
                OutputKind::Assembly => CodeGenFileType::AssemblyFile,
                _ => CodeGenFileType::ObjectFile,
            },
    {
        match self {
            OutputKind::Assembly => CodeGenFileType::AssemblyFile,
            _ => CodeGenFileType::ObjectFile,
        }
    }
}

/// The level of optimisation: none for a debug build, aggressive otherwise.
pub fn optimisation_level(debug: bool) -> (level: OptimisationLevel)
    ensures
        level == if debug {
            OptimisationLevel::Disabled
        } else {
            OptimisationLevel::Aggressive
        },
{
    if debug {
        OptimisationLevel::Disabled
    } else {
        OptimisationLevel::Aggressive
    }
}

} // verus!
