use vstd::prelude::*;
use crate::declaration::Declaration;
use crate::diagnostic::{diagnostics_text, diagnostics_to_text, Diagnostic, Position};
use crate::program::{all_nodes, Program};
use crate::string_table::{has_implicit_entry, StringTableManager};

verus! {

/// Where the code of a node came from: for instruction indices, the source
/// position of the statement whose code starts there.
#[derive(Debug)]
pub struct DebugInfo {
    pub file_name: String,
    pub node_name: String,
    pub line_positions: Vec<(usize, Position)>,
}

/// The result of a successful compilation.
#[derive(Debug)]
pub struct Compilation {
    /// The compiled program; none unless the whole pipeline ran.
    pub program: Option<Program>,
    pub string_table: StringTableManager,
    /// The declarations that the source gave rise to.
    pub declarations: Vec<Declaration>,
    pub contains_implicit_string_tags: bool,
    /// The file-level tags of each file.
    pub file_tags: Vec<(String, Vec<String>)>,
    /// Diagnostics that do not make the compilation fail.
    pub warnings: Vec<Diagnostic>,
    pub debug_info: Vec<DebugInfo>,
}

/// The failure of a compilation: its errors.
#[derive(Debug)]
pub struct CompilationError {
    pub diagnostics: Vec<Diagnostic>,
}

impl CompilationError {
    /// Each error on its own line, `<file>:<line>:<column>: error: <message>`.
    pub fn to_text(&self) -> (r: String)
        ensures
            r@ == diagnostics_text(self.diagnostics@),
    {
        diagnostics_to_text(&self.diagnostics)
    }
}

/// The programs of the compilations that have one, in order.
pub open spec fn present_programs(cs: Seq<Compilation>) -> Seq<Program>
    decreases cs.len(),
{
    if cs.len() == 0 {
        seq![]
    } else {
        present_programs(cs.drop_last()) + match cs.last().program {
            Some(p) => seq![p],
            None => seq![],
        }
    }
}

/// The declarations of the compilations, one after the other.
pub open spec fn combined_declarations(cs: Seq<Compilation>) -> Seq<Declaration>
    decreases cs.len(),
{
    if cs.len() == 0 {
        seq![]
    } else {
        combined_declarations(cs.drop_last()) + cs.last().declarations@
    }
}

/// The file tags of the compilations, one after the other.
pub open spec fn combined_tags(cs: Seq<Compilation>) -> Seq<(String, Vec<String>)>
    decreases cs.len(),
{
    if cs.len() == 0 {
        seq![]
    } else {
        combined_tags(cs.drop_last()) + cs.last().file_tags@
    }
}

/// The debug information of the compilations, one after the other.
pub open spec fn combined_debug_info(cs: Seq<Compilation>) -> Seq<DebugInfo>
    decreases cs.len(),
{
    if cs.len() == 0 {
        seq![]
    } else {
        combined_debug_info(cs.drop_last()) + cs.last().debug_info@
    }
}

/// The warnings of the compilations, one after the other.
pub open spec fn combined_warnings(cs: Seq<Compilation>) -> Seq<Diagnostic>
    decreases cs.len(),
{
    if cs.len() == 0 {
        seq![]
    } else {
        combined_warnings(cs.drop_last()) + cs.last().warnings@
    }
}

impl Compilation {
    /// Combines the compilations of several files into one: their programs'
    /// nodes in order, their declarations, tags, warnings and debug
    /// information one after the other, and the given string table.
    pub fn combine(compilations: Vec<Compilation>, string_table_manager: StringTableManager) -> (r: Compilation)
        ensures
            r.string_table == string_table_manager,
            r.contains_implicit_string_tags == has_implicit_entry(string_table_manager.entries@),
            r.declarations@ == combined_declarations(compilations@),
            r.warnings@ == combined_warnings(compilations@),
            r.file_tags@ == combined_tags(compilations@),
            r.debug_info@ == combined_debug_info(compilations@),
            r.program is None <==> present_programs(compilations@).len() == 0,
            r.program matches Some(p) ==> p.nodes@ == all_nodes(present_programs(compilations@)),
    {
        let ghost cs = compilations@;
        let mut rest = compilations;
        let mut programs: Vec<Program> = Vec::new();
        let mut declarations: Vec<Declaration> = Vec::new();
        let mut tags: Vec<(String, Vec<String>)> = Vec::new();
        let mut warnings: Vec<Diagnostic> = Vec::new();
        let mut debug_info: Vec<DebugInfo> = Vec::new();
        while rest.len() > 0
            invariant
                rest@.len() <= cs.len(),
                rest@ =~= cs.subrange(cs.len() - rest@.len(), cs.len() as int),
                programs@ == present_programs(cs.subrange(0, cs.len() - rest@.len())),
                declarations@ == combined_declarations(cs.subrange(0, cs.len() - rest@.len())),
                warnings@ == combined_warnings(cs.subrange(0, cs.len() - rest@.len())),
                tags@ == combined_tags(cs.subrange(0, cs.len() - rest@.len())),
                debug_info@ == combined_debug_info(cs.subrange(0, cs.len() - rest@.len())),
            decreases rest@.len(),
        {
            let ghost done = cs.len() - rest@.len();
            let c = rest.remove(0);
            proof {
                assert(cs[done] == c);
                assert(cs.subrange(0, done + 1).drop_last() =~= cs.subrange(0, done));
            }
            let Compilation {
                program,
                string_table: _,
                declarations: mut more_declarations,
                contains_implicit_string_tags: _,
                file_tags: mut more_tags,
                warnings: mut more_warnings,
                debug_info: mut more_debug_info,
            } = c;
            match program {
                Some(p) => {
                    programs.push(p);
                },
                None => {},
            }
            declarations.append(&mut more_declarations);
            tags.append(&mut more_tags);
            warnings.append(&mut more_warnings);
            debug_info.append(&mut more_debug_info);
        }
        proof {
            assert(cs.subrange(0, cs.len() as int) =~= cs);
        }
        let contains_implicit_string_tags = string_table_manager.contains_implicit_string_tags();
        Compilation {
            program: Program::combine(programs),
            string_table: string_table_manager,
            declarations,
            contains_implicit_string_tags,
            file_tags: tags,
            warnings,
            debug_info,
        }
    }
}

} // verus!
