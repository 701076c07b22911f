use vstd::prelude::*;
use crate::codegen::emit_node;
use crate::collect::collect_declarations;
use crate::declaration::{all_defaults_match, find_declaration, lemma_all_defaults_match_concat, Declaration};
use crate::diagnostic::{Diagnostic, Severity};
use crate::extraction::{
    adds_only_duplicates, duplicate_report, extract_statements, is_duplicate_report, no_explicit_ids,
    node_title,
};
use crate::output::{present_programs, Compilation, CompilationError, DebugInfo};
use crate::program::{Node, Program};
use crate::string_table::{has_implicit_entry, StringTableManager};
use crate::tracking::add_tracking_declarations;
use crate::tree::{first_header, lines_of, DialogueNode, FileParseResult};
use crate::type_check::{assigns_null, has_error_from, DeferredTypeDiagnostic, TypeCheckVisitor};

verus! {

/// How far a compilation goes.
#[derive(Clone, Copy, Debug, PartialEq, Eq, Structural)]
pub enum CompilationType {
    /// Every stage, up to the program.
    FullCompilation,
    /// Only the string table.
    StringsOnly,
    /// Up to the declarations, with unresolved variables as errors.
    DeclarationsOnly,
    /// Up to the declarations, with unresolved variables as warnings.
    TypeCheck,
}

/// What to compile: the parsed files, the declarations that the host
/// provides (its functions and variables), and how far to go.
#[derive(Debug)]
pub struct CompilationJob {
    pub files: Vec<FileParseResult>,
    pub declarations: Vec<Declaration>,
    pub compilation_type: CompilationType,
}

/// The title of a node: the value of its first `title` header, or empty.
pub open spec fn title_of(node: DialogueNode) -> Seq<char> {
    let k = first_header(node.headers@, "title"@, 0);
    if k >= 0 {
        node.headers@[k].value@
    } else {
        seq![]
    }
}

/// No two nodes of the files share a title.
pub open spec fn titles_distinct(files: Seq<FileParseResult>) -> bool {
    forall|f1: int, n1: int, f2: int, n2: int|
        0 <= f1 < files.len() && 0 <= n1 < files[f1].tree.nodes@.len() && 0 <= f2 < files.len() && 0 <= n2
            < files[f2].tree.nodes@.len() && (f1 != f2 || n1 != n2) ==> #[trigger] title_of(files[f1].tree.nodes@[n1])
            != #[trigger] title_of(files[f2].tree.nodes@[n2])
}

/// Whether a node before node `ni` of file `fi` has the title.
pub open spec fn title_seen(files: Seq<FileParseResult>, fi: int, ni: int, name: Seq<char>) -> bool {
    exists|f: int, n: int|
        0 <= f < files.len() && 0 <= n < files[f].tree.nodes@.len() && (f < fi || (f == fi && n < ni))
            && #[trigger] title_of(files[f].tree.nodes@[n]) == name
}

/// Whether a statement of a node's body assigns the `null` literal.
pub open spec fn node_assigns_null(node: DialogueNode) -> bool {
    exists|i: int| 0 <= i < node.body@.len() && assigns_null(#[trigger] node.body@[i])
}

/// Whether some node of the files assigns the `null` literal.
pub open spec fn some_null_assignment(files: Seq<FileParseResult>) -> bool {
    exists|f: int, n: int| 0 <= f < files.len() && 0 <= n < files[f].tree.nodes@.len()
        && node_assigns_null(#[trigger] files[f].tree.nodes@[n])
}

/// Whether every node of the files has an empty body.
pub open spec fn bodies_empty(files: Seq<FileParseResult>) -> bool {
    forall|f: int, n: int| 0 <= f < files.len() && 0 <= n < files[f].tree.nodes@.len()
        ==> (#[trigger] files[f].tree.nodes@[n]).body@.len() == 0
}

/// No line of any node of the files carries an explicit id.
pub open spec fn without_explicit_ids(files: Seq<FileParseResult>) -> bool {
    forall|f: int, n: int| 0 <= f < files.len() && 0 <= n < files[f].tree.nodes@.len()
        ==> no_explicit_ids(#[trigger] files[f].tree.nodes@[n].body@)
}

/// Whether the list holds the text.
fn contains_text(list: &Vec<String>, s: &String) -> (r: bool)
    ensures
        r == exists|i: int| 0 <= i < list@.len() && (#[trigger] list@[i])@ == s@,
{
    let mut i: usize = 0;
    while i < list.len()
        invariant
            i <= list@.len(),
            forall|j: int| 0 <= j < i ==> (#[trigger] list@[j])@ != s@,
        decreases list@.len() - i,
    {
        if list[i] == *s {
            return true;
        }
        i = i + 1;
    }
    false
}

/// Splits diagnostics into errors and warnings, each in order.
pub fn partition_diagnostics(diagnostics: Vec<Diagnostic>) -> (r: (Vec<Diagnostic>, Vec<Diagnostic>))
    ensures
        r.0@ == diagnostics@.filter(|d: Diagnostic| d.severity == Severity::Error),
        r.1@ == diagnostics@.filter(|d: Diagnostic| d.severity == Severity::Warning),
        r.0@.len() + r.1@.len() == diagnostics@.len(),
        forall|i: int| 0 <= i < r.0@.len() ==> (#[trigger] r.0@[i]).severity == Severity::Error,
        forall|i: int| 0 <= i < r.1@.len() ==> (#[trigger] r.1@[i]).severity == Severity::Warning,
        forall|i: int| 0 <= i < r.0@.len() ==> exists|j: int| 0 <= j < diagnostics@.len()
            && diagnostics@[j] == #[trigger] r.0@[i],
        (exists|j: int| 0 <= j < diagnostics@.len() && (#[trigger] diagnostics@[j]).severity
            == Severity::Error) <==> r.0@.len() > 0,
{
    let ghost all = diagnostics@;
    let mut rest = diagnostics;
    let mut errors: Vec<Diagnostic> = Vec::new();
    let mut warnings: Vec<Diagnostic> = Vec::new();
    while rest.len() > 0
        invariant
            rest@.len() <= all.len(),
            rest@ =~= all.subrange(all.len() - rest@.len(), all.len() as int),
            errors@.len() + warnings@.len() == all.len() - rest@.len(),
            forall|i: int| 0 <= i < errors@.len() ==> (#[trigger] errors@[i]).severity == Severity::Error,
            forall|i: int| 0 <= i < warnings@.len() ==> (#[trigger] warnings@[i]).severity == Severity::Warning,
            forall|i: int| 0 <= i < errors@.len() ==> exists|j: int| 0 <= j < all.len() && all[j] == #[trigger] errors@[i],
            (exists|j: int| 0 <= j < all.len() - rest@.len() && (#[trigger] all[j]).severity == Severity::Error)
                <==> errors@.len() > 0,
            errors@ == all.subrange(0, all.len() - rest@.len()).filter(|d: Diagnostic| d.severity == Severity::Error),
            warnings@ == all.subrange(0, all.len() - rest@.len()).filter(|d: Diagnostic| d.severity == Severity::Warning),
        decreases rest@.len(),
    {
        let ghost done = all.len() - rest@.len();
        let d = rest.remove(0);
        proof {
            assert(all[done] == d);
            assert(all.subrange(0, done + 1).drop_last() =~= all.subrange(0, done));
            reveal(Seq::filter);
        }
        match d.severity {
            Severity::Error => {
                errors.push(d);
            },
            Severity::Warning => {
                warnings.push(d);
            },
        }
    }
    proof {
        assert(all.subrange(0, all.len() as int) =~= all);
    }
    (errors, warnings)
}

/// The end of a compilation: it fails with its errors where it has any, and
/// otherwise succeeds with the given parts and its warnings.
fn finish(
    diagnostics: Vec<Diagnostic>,
    program: Option<Program>,
    string_table: StringTableManager,
    declarations: Vec<Declaration>,
    file_tags: Vec<(String, Vec<String>)>,
    debug_info: Vec<DebugInfo>,
) -> (r: Result<Compilation, CompilationError>)
    ensures
        r matches Err(e) ==> e.diagnostics@.len() > 0 && forall|i: int| 0 <= i < e.diagnostics@.len()
            ==> (#[trigger] e.diagnostics@[i]).severity == Severity::Error
            && exists|j: int| 0 <= j < diagnostics@.len() && diagnostics@[j] == e.diagnostics@[i],
        r is Err <==> exists|j: int| 0 <= j < diagnostics@.len() && (#[trigger] diagnostics@[j]).severity
            == Severity::Error,
        r matches Ok(c) ==> {
            &&& c.program == program
            &&& c.string_table == string_table
            &&& c.declarations == declarations
            &&& c.contains_implicit_string_tags == has_implicit_entry(string_table.entries@)
            &&& forall|i: int| 0 <= i < c.warnings@.len() ==> (#[trigger] c.warnings@[i]).severity
                == Severity::Warning
        },
{
    let (errors, warnings) = partition_diagnostics(diagnostics);
    if errors.len() > 0 {
        return Err(CompilationError { diagnostics: errors });
    }
    let contains_implicit_string_tags = string_table.contains_implicit_string_tags();
    Ok(
        Compilation {
            program,
            string_table,
            declarations,
            contains_implicit_string_tags,
            file_tags,
            warnings,
            debug_info,
        },
    )
}

/// Whether some diagnostic is an error.
fn has_errors(diagnostics: &Vec<Diagnostic>) -> (r: bool)
    ensures
        r == exists|j: int| 0 <= j < diagnostics@.len() && (#[trigger] diagnostics@[j]).severity
            == Severity::Error,
{
    let mut i: usize = 0;
    while i < diagnostics.len()
        invariant
            i <= diagnostics@.len(),
            forall|j: int| 0 <= j < i ==> (#[trigger] diagnostics@[j]).severity != Severity::Error,
        decreases diagnostics@.len() - i,
    {
        if diagnostics[i].severity == Severity::Error {
            return true;
        }
        i = i + 1;
    }
    false
}

/// Compiles parsed files: registers node names, extracts the string table,
/// and, as far as the compilation type asks, infers and checks types,
/// declares the visit counters of tracked nodes, and emits the program. It
/// fails, with every error found, iff some stage reported an error.
pub fn compile(job: CompilationJob) -> (r: Result<Compilation, CompilationError>)
    requires
        all_defaults_match(job.declarations@),
    ensures
        r matches Err(e) ==> e.diagnostics@.len() > 0 && forall|i: int| 0 <= i < e.diagnostics@.len()
            ==> (#[trigger] e.diagnostics@[i]).severity == Severity::Error,
        r matches Ok(c) ==> forall|i: int| 0 <= i < c.warnings@.len() ==> (#[trigger] c.warnings@[i]).severity
            == Severity::Warning,
        r matches Ok(c) ==> c.string_table.wf(),
        r matches Ok(c) ==> c.contains_implicit_string_tags == has_implicit_entry(c.string_table.entries@),
        r matches Ok(c) ==> all_defaults_match(c.declarations@),
        job.compilation_type != CompilationType::FullCompilation ==> (r matches Ok(c) ==> c.program is None),
        job.compilation_type == CompilationType::FullCompilation && job.files@.len() > 0 ==> (r matches Ok(
            c,
        ) ==> c.program is Some),
        job.compilation_type == CompilationType::StringsOnly ==> (r matches Ok(c) ==> c.declarations@.len() == 0),
        job.compilation_type != CompilationType::StringsOnly && some_null_assignment(job.files@) ==> r is Err,
        titles_distinct(job.files@) && bodies_empty(job.files@) ==> r is Ok,
        job.compilation_type == CompilationType::StringsOnly && titles_distinct(job.files@) && without_explicit_ids(
            job.files@,
        ) ==> r is Ok,
        job.compilation_type == CompilationType::StringsOnly ==> (r matches Err(e) ==> forall|i: int|
            0 <= i < e.diagnostics@.len() ==> is_duplicate_report(#[trigger] e.diagnostics@[i])),
{
    let CompilationJob { files, declarations, compilation_type } = job;
    let mut diagnostics: Vec<Diagnostic> = Vec::new();
    let mut table = StringTableManager::new();
    let mut node_names: Vec<String> = Vec::new();
    let mut tracking_nodes: Vec<String> = Vec::new();
    let mut line_ids: Vec<Vec<String>> = Vec::new();
    let mut file_tags: Vec<(String, Vec<String>)> = Vec::new();
    let tracking_key = String::from_str("tracking");
    let always = String::from_str("always");
    let ghost quiet_job = titles_distinct(files@) && bodies_empty(files@);
    proof {
        if bodies_empty(files@) {
            assert forall|f: int, n: int| 0 <= f < files@.len() && 0 <= n < files@[f].tree.nodes@.len()
                implies no_explicit_ids(#[trigger] files@[f].tree.nodes@[n].body@) by {
                assert(files@[f].tree.nodes@[n].body@.len() == 0);
            }
        }
    }
    let ghost clean = titles_distinct(files@) && without_explicit_ids(files@);
    let mut fi: usize = 0;
    while fi < files.len()
        invariant
            fi <= files@.len(),
            table.wf(),
            adds_only_duplicates(Seq::<Diagnostic>::empty(), diagnostics@),
            clean == (titles_distinct(files@) && without_explicit_ids(files@)),
            clean ==> diagnostics@.len() == 0,
            forall|k: int| 0 <= k < node_names@.len() ==> title_seen(files@, fi as int, 0, (#[trigger] node_names@[k])@),
        decreases files@.len() - fi,
    {
        let file = &files[fi];
        file_tags.push((file.name.clone(), file.tree.file_tags.clone()));
        let mut ni: usize = 0;
        while ni < file.tree.nodes.len()
            invariant
                ni <= file.tree.nodes@.len(),
                fi < files@.len(),
                *file == files@[fi as int],
                table.wf(),
                adds_only_duplicates(Seq::<Diagnostic>::empty(), diagnostics@),
                clean == (titles_distinct(files@) && without_explicit_ids(files@)),
                clean ==> diagnostics@.len() == 0,
                forall|k: int| 0 <= k < node_names@.len() ==> title_seen(files@, fi as int, ni as int, (#[trigger] node_names@[k])@),
            decreases file.tree.nodes@.len() - ni,
        {
            let node = &file.tree.nodes[ni];
            let title = node_title(node);
            proof {
                assert(*node == files@[fi as int].tree.nodes@[ni as int]);
                assert(title@ == title_of(*node));
            }
            if contains_text(&node_names, &title) {
                proof {
                    if clean {
                        let k = choose|k: int| 0 <= k < node_names@.len() && (#[trigger] node_names@[k])@ == title@;
                        assert(title_seen(files@, fi as int, ni as int, node_names@[k]@));
                        let (f, n) = choose|f: int, n: int|
                            0 <= f < files@.len() && 0 <= n < files@[f].tree.nodes@.len() && (f < fi || (f == fi && n < ni))
                                && #[trigger] title_of(files@[f].tree.nodes@[n]) == node_names@[k]@;
                        assert(title_of(files@[f].tree.nodes@[n]) != title_of(files@[fi as int].tree.nodes@[ni as int]));
                    }
                }
                diagnostics.push(duplicate_report(&file.name, &node.context, "node name", &title));
            }
            let mut hi: usize = 0;
            while hi < node.headers.len()
                invariant
                    hi <= node.headers@.len(),
                decreases node.headers@.len() - hi,
            {
                if node.headers[hi].key == tracking_key && node.headers[hi].value == always {
                    tracking_nodes.push(title.clone());
                }
                hi = hi + 1;
            }
            let mut ids: Vec<String> = Vec::new();
            proof {
                if clean {
                    assert(no_explicit_ids(files@[fi as int].tree.nodes@[ni as int].body@));
                }
            }
            extract_statements(&file.name, &title, &node.body, &mut table, &mut diagnostics, &mut ids);
            line_ids.push(ids);
            let ghost names_before = node_names@;
            node_names.push(title);
            proof {
                assert forall|k: int| 0 <= k < node_names@.len() implies title_seen(files@, fi as int, ni + 1, (#[trigger] node_names@[k])@) by {
                    if k < names_before.len() {
                        assert(node_names@[k] == names_before[k]);
                        assert(title_seen(files@, fi as int, ni as int, names_before[k]@));
                        let (f, n) = choose|f: int, n: int|
                            0 <= f < files@.len() && 0 <= n < files@[f].tree.nodes@.len() && (f < fi || (f == fi && n < ni))
                                && #[trigger] title_of(files@[f].tree.nodes@[n]) == names_before[k]@;
                        assert(title_of(files@[f].tree.nodes@[n]) == node_names@[k]@);
                    } else {
                        assert(title_of(files@[fi as int].tree.nodes@[ni as int]) == node_names@[k]@);
                    }
                }
            }
            ni = ni + 1;
        }
        let ghost fi0 = fi as int;
        let ghost ni0 = ni as int;
        fi = fi + 1;
        proof {
            assert forall|k: int| 0 <= k < node_names@.len() implies title_seen(files@, fi as int, 0, (#[trigger] node_names@[k])@) by {
                assert(title_seen(files@, fi0, ni0, node_names@[k]@));
                let (f, n) = choose|f: int, n: int|
                    0 <= f < files@.len() && 0 <= n < files@[f].tree.nodes@.len() && (f < fi0 || (f == fi0 && n < ni0))
                        && #[trigger] title_of(files@[f].tree.nodes@[n]) == node_names@[k]@;
                assert(title_of(files@[f].tree.nodes@[n]) == node_names@[k]@);
            }
        }
    }
    if compilation_type == CompilationType::StringsOnly {
        proof {
            assert forall|j: int| 0 <= j < diagnostics@.len() implies is_duplicate_report(#[trigger] diagnostics@[j]) by {
            }
        }
        return finish(diagnostics, None, table, Vec::new(), file_tags, Vec::new());
    }
    let mut known = declarations;
    let host_count = known.len();
    let mut fi: usize = 0;
    while fi < files.len()
        invariant
            fi <= files@.len(),
            all_defaults_match(known@),
            host_count <= known@.len(),
            quiet_job == (titles_distinct(files@) && bodies_empty(files@)),
            quiet_job ==> diagnostics@.len() == 0,
        decreases files@.len() - fi,
    {
        let file = &files[fi];
        let mut ni: usize = 0;
        while ni < file.tree.nodes.len()
            invariant
                ni <= file.tree.nodes@.len(),
                fi < files@.len(),
                *file == files@[fi as int],
                all_defaults_match(known@),
                host_count <= known@.len(),
                quiet_job == (titles_distinct(files@) && bodies_empty(files@)),
                quiet_job ==> diagnostics@.len() == 0,
            decreases file.tree.nodes@.len() - ni,
        {
            let node = &file.tree.nodes[ni];
            let title = node_title(node);
            proof {
                if quiet_job {
                    assert(files@[fi as int].tree.nodes@[ni as int].body@.len() == 0);
                }
            }
            collect_declarations(&file.name, &title, &node.body, &mut known, &mut diagnostics);
            ni = ni + 1;
        }
        fi = fi + 1;
    }
    let mut deferred: Vec<DeferredTypeDiagnostic> = Vec::new();
    let ghost nulls = some_null_assignment(files@);
    let mut fi: usize = 0;
    while fi < files.len()
        invariant
            fi <= files@.len(),
            all_defaults_match(known@),
            host_count <= known@.len(),
            nulls == some_null_assignment(files@),
            quiet_job == (titles_distinct(files@) && bodies_empty(files@)),
            quiet_job ==> diagnostics@.len() == 0 && deferred@.len() == 0,
            (exists|f: int, n: int| 0 <= f < fi && 0 <= n < files@[f].tree.nodes@.len()
                && node_assigns_null(#[trigger] files@[f].tree.nodes@[n])) ==> has_error_from(diagnostics@, 0),
        decreases files@.len() - fi,
    {
        let file = &files[fi];
        let mut visitor = TypeCheckVisitor::new(file.name.clone(), known);
        let mut ni: usize = 0;
        while ni < file.tree.nodes.len()
            invariant
                ni <= file.tree.nodes@.len(),
                fi < files@.len(),
                *file == files@[fi as int],
                visitor.wf(),
                host_count <= visitor.existing_declarations@.len(),
                (exists|n: int| 0 <= n < ni && node_assigns_null(#[trigger] file.tree.nodes@[n]))
                    ==> has_error_from(visitor.diagnostics@, 0),
                quiet_job == (titles_distinct(files@) && bodies_empty(files@)),
                quiet_job ==> visitor.diagnostics@.len() == 0 && visitor.deferred_types@.len() == 0,
            decreases file.tree.nodes@.len() - ni,
        {
            let ghost d0 = visitor.diagnostics@;
            proof {
                if quiet_job {
                    assert(files@[fi as int].tree.nodes@[ni as int].body@.len() == 0);
                }
            }
            visitor.visit_node(&file.tree.nodes[ni]);
            proof {
                if exists|n: int| 0 <= n < ni + 1 && node_assigns_null(#[trigger] file.tree.nodes@[n]) {
                    if exists|n: int| 0 <= n < ni && node_assigns_null(#[trigger] file.tree.nodes@[n]) {
                        let j = choose|j: int| 0 <= j < d0.len() && (#[trigger] d0[j]).severity == Severity::Error;
                        assert(visitor.diagnostics@[j] == d0[j]);
                    } else {
                        assert(node_assigns_null(file.tree.nodes@[ni as int]));
                        let j = choose|j: int| d0.len() <= j < visitor.diagnostics@.len()
                            && (#[trigger] visitor.diagnostics@[j]).severity == Severity::Error;
                    }
                }
            }
            ni = ni + 1;
        }
        let TypeCheckVisitor {
            diagnostics: mut found,
            new_declarations: mut added,
            deferred_types: mut held,
            existing_declarations: mut existing,
            current_node_name: _,
            source_file_name: _,
            types: _,
        } = visitor;
        proof {
            lemma_all_defaults_match_concat(existing@, added@);
        }
        let ghost before_append = diagnostics@;
        let ghost found_view = found@;
        diagnostics.append(&mut found);
        existing.append(&mut added);
        known = existing;
        deferred.append(&mut held);
        proof {
            if exists|f: int, n: int| 0 <= f < fi + 1 && 0 <= n < files@[f].tree.nodes@.len()
                && node_assigns_null(#[trigger] files@[f].tree.nodes@[n]) {
                let (f, n) = choose|f: int, n: int| 0 <= f < fi + 1 && 0 <= n < files@[f].tree.nodes@.len()
                    && node_assigns_null(#[trigger] files@[f].tree.nodes@[n]);
                if f < fi {
                    let j = choose|j: int| 0 <= j < before_append.len() && (#[trigger] before_append[j]).severity == Severity::Error;
                    assert(diagnostics@[j] == before_append[j]);
                } else {
                    assert(node_assigns_null(file.tree.nodes@[n]));
                    let j = choose|j: int| 0 <= j < found_view.len() && (#[trigger] found_view[j]).severity == Severity::Error;
                    assert(diagnostics@[before_append.len() + j] == found_view[j]);
                }
            }
        }
        fi = fi + 1;
    }
    // What stays undetermined after every file is an error, or a warning
    // where only a type check was asked for.
    let mut di: usize = 0;
    while di < deferred.len()
        invariant
            di <= deferred@.len(),
            nulls ==> has_error_from(diagnostics@, 0),
            quiet_job ==> diagnostics@.len() == 0 && deferred@.len() == 0,
        decreases deferred@.len() - di,
    {
        let ghost d0 = diagnostics@;
        if find_declaration(&known, &deferred[di].name, false).is_none() {
            let severity = if compilation_type == CompilationType::TypeCheck {
                Severity::Warning
            } else {
                Severity::Error
            };
            diagnostics.push(deferred[di].diagnostic.duplicate().with_severity(severity));
            proof {
                if nulls {
                    let j = choose|j: int| 0 <= j < d0.len() && (#[trigger] d0[j]).severity == Severity::Error;
                    assert(diagnostics@[j] == d0[j]);
                }
            }
        }
        di = di + 1;
    }
    if compilation_type != CompilationType::FullCompilation {
        let source_declarations = known.split_off(host_count);
        proof {
            assert forall|i: int| 0 <= i < source_declarations@.len() implies
                #[trigger] crate::declaration::default_matches_type(source_declarations@[i]) by {
                assert(source_declarations@[i] == known@.add(source_declarations@)[host_count + i]);
            }
        }
        return finish(diagnostics, None, table, source_declarations, file_tags, Vec::new());
    }
    let mut derived: Vec<Declaration> = Vec::new();
    add_tracking_declarations(&tracking_nodes, &mut known, &mut derived);
    let source_declarations = known.split_off(host_count);
    proof {
        assert forall|i: int| 0 <= i < source_declarations@.len() implies
            #[trigger] crate::declaration::default_matches_type(source_declarations@[i]) by {
            assert(source_declarations@[i] == known@.add(source_declarations@)[host_count + i]);
        }
    }
    if has_errors(&diagnostics) {
        return finish(diagnostics, None, table, source_declarations, file_tags, Vec::new());
    }
    let mut compiled_files: Vec<Compilation> = Vec::new();
    let mut fi: usize = 0;
    while fi < files.len()
        invariant
            fi <= files@.len(),
            compiled_files@.len() == fi,
            forall|j: int| 0 <= j < compiled_files@.len() ==> (#[trigger] compiled_files@[j]).program is Some,
            quiet_job == (titles_distinct(files@) && bodies_empty(files@)),
            quiet_job ==> diagnostics@.len() == 0,
        decreases files@.len() - fi,
    {
        let file = &files[fi];
        let mut nodes: Vec<Node> = Vec::new();
        let mut debug_info: Vec<DebugInfo> = Vec::new();
        let mut ni: usize = 0;
        while ni < file.tree.nodes.len()
            invariant
                ni <= file.tree.nodes@.len(),
                fi < files@.len(),
                *file == files@[fi as int],
                quiet_job == (titles_distinct(files@) && bodies_empty(files@)),
                quiet_job ==> diagnostics@.len() == 0,
            decreases file.tree.nodes@.len() - ni,
        {
            let node = &file.tree.nodes[ni];
            proof {
                if quiet_job {
                    assert(files@[fi as int].tree.nodes@[ni as int].body@.len() == 0);
                    assert(lines_of(node.body@) == 0);
                }
            }
            let title = node_title(node);
            let is_tracked = contains_text(&tracking_nodes, &title);
            let ids = if line_ids.len() > 0 {
                line_ids.remove(0)
            } else {
                Vec::new()
            };
            match emit_node(node, &title, is_tracked, ids) {
                Ok((compiled, positions)) => {
                    nodes.push(compiled);
                    debug_info.push(
                        DebugInfo { file_name: file.name.clone(), node_name: title, line_positions: positions },
                    );
                },
                Err(reason) => {
                    let mut message = String::from_str("Internal compiler error: ");
                    message.append(reason.as_str());
                    diagnostics.push(
                        Diagnostic::error(file.name.as_str(), node.context.range(), node.context.text.as_str(), message),
                    );
                },
            }
            ni = ni + 1;
        }
        compiled_files.push(
            Compilation {
                program: Some(Program { nodes }),
                string_table: StringTableManager::new(),
                declarations: Vec::new(),
                contains_implicit_string_tags: false,
                file_tags: Vec::new(),
                warnings: Vec::new(),
                debug_info,
            },
        );
        fi = fi + 1;
    }
    proof {
        let cs = compiled_files@;
        if cs.len() > 0 {
            assert(cs.last().program is Some);
            assert(present_programs(cs).len() >= 1);
        }
    }
    let combined = Compilation::combine(compiled_files, table);
    let Compilation { program, string_table, debug_info, .. } = combined;
    finish(diagnostics, program, string_table, source_declarations, file_tags, debug_info)
}

} // verus!
