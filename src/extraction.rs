use vstd::prelude::*;
use crate::diagnostic::{Diagnostic, Severity};
use crate::string_table::{
    implicit_line_id, put_entry, with_implicit_tag, StringInfo, StringTableManager,
};
use crate::text::{decimal, push_decimal};
use crate::tree::{lemma_body_lines_mono, IfClause, ShortcutOption, statement_lines, body_lines, clauses_lines, lines_of, options_lines, first_header, lemma_first_header_bounds, DialogueNode, LineSegment, LineStatement, Statement};

verus! {

/// Whether a diagnostic reports something given twice (a line id, a node
/// name): its message starts with `Duplicate `.
pub open spec fn is_duplicate_report(d: Diagnostic) -> bool {
    d.message@.len() >= 10 && d.message@.subrange(0, 10) == "Duplicate "@
}

/// `after` is `before` followed by reports of duplicates only.
pub open spec fn adds_only_duplicates(before: Seq<Diagnostic>, after: Seq<Diagnostic>) -> bool {
    &&& before.len() <= after.len()
    &&& forall|i: int| 0 <= i < before.len() ==> after[i] == before[i]
    &&& forall|i: int| before.len() <= i < after.len() ==> is_duplicate_report(#[trigger] after[i])
}

/// A diagnostic reporting a duplicate: `Duplicate <what> <name>`.
pub fn duplicate_report(
    file_name: &String,
    context: &crate::tree::ParseContext,
    what: &str,
    name: &String,
) -> (r: Diagnostic)
    ensures
        is_duplicate_report(r),
        r.severity == Severity::Error,
{
    let mut message = String::from_str("Duplicate ");
    let ghost head = message@;
    message.append(what);
    message.append(" ");
    message.append(name.as_str());
    proof {
        reveal_strlit("Duplicate ");
        assert(message@.subrange(0, 10) =~= head);
    }
    Diagnostic {
        file_name: file_name.clone(),
        range: context.range(),
        message,
        context: context.text.clone(),
        severity: Severity::Error,
    }
}

/// The number of inline expressions among the segments.
pub open spec fn placeholder_count(segments: Seq<LineSegment>) -> nat
    decreases segments.len(),
{
    if segments.len() == 0 {
        0
    } else {
        placeholder_count(segments.drop_last()) + if segments.last() is Expression {
            1nat
        } else {
            0nat
        }
    }
}

/// The text of a line: its text segments, with each inline expression
/// replaced by `{n}`, `n` counting the expressions from zero in source order.
pub open spec fn spec_line_text(segments: Seq<LineSegment>) -> Seq<char>
    decreases segments.len(),
{
    if segments.len() == 0 {
        seq![]
    } else {
        let before = spec_line_text(segments.drop_last());
        match segments.last() {
            LineSegment::Text(t) => before + t@,
            LineSegment::Expression(_) => before + "{"@ + decimal(
                placeholder_count(segments.drop_last()),
            ) + "}"@,
        }
    }
}

/// Whether a hashtag gives a line its id: it starts with `line:`.
pub open spec fn is_line_tag(tag: Seq<char>) -> bool {
    tag.len() >= 5 && tag.subrange(0, 5) == "line:"@
}

/// The index of the first hashtag from `i` on that gives the line its id, or
/// -1.
pub open spec fn line_tag_index(tags: Seq<String>, i: int) -> int
    decreases tags.len() - i,
{
    if i < 0 || i >= tags.len() {
        -1
    } else if is_line_tag(tags[i]@) {
        i
    } else {
        line_tag_index(tags, i + 1)
    }
}

pub proof fn lemma_line_tag_index_bounds(tags: Seq<String>, i: int)
    ensures
        -1 <= line_tag_index(tags, i) < tags.len(),
        line_tag_index(tags, i) >= 0 ==> is_line_tag(tags[line_tag_index(tags, i)]@),
    decreases tags.len() - i,
{
    if 0 <= i < tags.len() && !is_line_tag(tags[i]@) {
        lemma_line_tag_index_bounds(tags, i + 1);
    }
}

/// The explicit id of a statement that is a line carrying one.
pub open spec fn explicit_id_of(s: Statement) -> Option<Seq<char>> {
    match s {
        Statement::Line(l) => if has_explicit_id(l) {
            Some(l.hashtags@[line_tag_index(l.hashtags@, 0)]@)
        } else {
            None
        },
        _ => None,
    }
}

/// Whether a line carries an explicit `#line:` id.
pub open spec fn has_explicit_id(line: LineStatement) -> bool {
    line_tag_index(line.hashtags@, 0) >= 0
}

/// The number of lines of a statement, nested ones and options included,
/// that carry an explicit id.
pub open spec fn statement_explicit(s: Statement) -> nat
    decreases s,
{
    match s {
        Statement::Line(l) => if has_explicit_id(l) { 1 } else { 0 },
        Statement::If(ifs) => clauses_explicit(ifs.clauses@, ifs.clauses@.len() as int) + body_explicit(
            ifs.else_body@,
            ifs.else_body@.len() as int,
        ),
        Statement::Options(os) => option_lines_explicit(os.options@, os.options@.len() as int)
            + options_explicit(os.options@, os.options@.len() as int),
        _ => 0,
    }
}

/// The number of lines with an explicit id in the first `n` statements.
pub open spec fn body_explicit(body: Seq<Statement>, n: int) -> nat
    decreases body, n,
{
    if n <= 0 || n > body.len() {
        0
    } else {
        body_explicit(body, n - 1) + statement_explicit(body[n - 1])
    }
}

pub open spec fn clauses_explicit(clauses: Seq<IfClause>, n: int) -> nat
    decreases clauses, n,
{
    if n <= 0 || n > clauses.len() {
        0
    } else {
        clauses_explicit(clauses, n - 1) + body_explicit(clauses[n - 1].body@, clauses[n - 1].body@.len() as int)
    }
}

pub open spec fn options_explicit(options: Seq<ShortcutOption>, n: int) -> nat
    decreases options, n,
{
    if n <= 0 || n > options.len() {
        0
    } else {
        options_explicit(options, n - 1) + body_explicit(options[n - 1].body@, options[n - 1].body@.len() as int)
    }
}

pub open spec fn option_lines_explicit(options: Seq<ShortcutOption>, n: int) -> nat
    decreases n,
{
    if n <= 0 || n > options.len() {
        0
    } else {
        option_lines_explicit(options, n - 1) + if has_explicit_id(options[n - 1].line) { 1nat } else { 0nat }
    }
}

/// Whether no line of a body carries an explicit id.
pub open spec fn no_explicit_ids(body: Seq<Statement>) -> bool {
    body_explicit(body, body.len() as int) == 0
}

/// The text of a line, with placeholders for its inline expressions.
pub fn line_text(segments: &Vec<LineSegment>) -> (r: String)
    ensures
        r@ == spec_line_text(segments@),
{
    let mut r = String::new();
    let mut count: usize = 0;
    let mut i: usize = 0;
    while i < segments.len()
        invariant
            i <= segments@.len(),
            count == placeholder_count(segments@.subrange(0, i as int)),
            count <= i,
            r@ == spec_line_text(segments@.subrange(0, i as int)),
        decreases segments@.len() - i,
    {
        proof {
            let next = segments@.subrange(0, i + 1);
            assert(next.drop_last() =~= segments@.subrange(0, i as int));
        }
        match &segments[i] {
            LineSegment::Text(t) => {
                r.append(t.as_str());
            },
            LineSegment::Expression(_) => {
                r.append("{");
                push_decimal(&mut r, count);
                r.append("}");
                count = count + 1;
            },
        }
        i = i + 1;
    }
    assert(segments@.subrange(0, segments@.len() as int) =~= segments@);
    r
}

/// Whether a hashtag gives a line its id.
pub fn has_line_prefix(tag: &String) -> (r: bool)
    ensures
        r == is_line_tag(tag@),
{
    let len = tag.as_str().unicode_len();
    if len < 5 {
        return false;
    }
    let head = String::from_str(tag.as_str().substring_char(0, 5));
    let prefix = String::from_str("line:");
    head == prefix
}

/// The position of the hashtag that gives a line its id, if any.
pub fn find_line_tag(tags: &Vec<String>) -> (r: Option<usize>)
    ensures
        r matches Some(k) ==> k as int == line_tag_index(tags@, 0),
        r is None ==> line_tag_index(tags@, 0) == -1,
{
    let mut i: usize = 0;
    while i < tags.len()
        invariant
            i <= tags@.len(),
            line_tag_index(tags@, i as int) == line_tag_index(tags@, 0),
        decreases tags@.len() - i,
    {
        if has_line_prefix(&tags[i]) {
            return Some(i);
        }
        i = i + 1;
    }
    None
}

/// The hashtags of a line other than the one that gives its id.
fn line_metadata(tags: &Vec<String>, skip: Option<usize>) -> (r: Vec<String>)
{
    let mut r: Vec<String> = Vec::new();
    let mut i: usize = 0;
    while i < tags.len()
        invariant
            i <= tags@.len(),
        decreases tags@.len() - i,
    {
        let keep = match skip {
            Some(k) => k != i,
            None => true,
        };
        if keep {
            r.push(tags[i].clone());
        }
        i = i + 1;
    }
    r
}

/// Records one line in the string table and returns its id: the id that its
/// `#line:` hashtag gives, or one made up from the file, the node and the
/// table's size. An explicit id that the table holds already is an error,
/// reported at this second occurrence; the table then keeps the first.
pub fn extract_line(
    file_name: &String,
    node_name: &String,
    line: &LineStatement,
    table: &mut StringTableManager,
    diagnostics: &mut Vec<Diagnostic>,
) -> (r: String)
    requires
        old(table).wf(),
    ensures
        final(table).wf(),
        line_tag_index(line.hashtags@, 0) >= 0 ==> r@ == line.hashtags@[line_tag_index(
            line.hashtags@,
            0,
        )]@,
        line_tag_index(line.hashtags@, 0) < 0 ==> r@ == implicit_line_id(
            file_name@,
            node_name@,
            old(table).entries@.len(),
        ),
        old(diagnostics)@.len() <= final(diagnostics)@.len(),
        final(diagnostics)@.len() <= old(diagnostics)@.len() + 1,
        !has_explicit_id(*line) ==> *final(diagnostics) == *old(diagnostics),
        adds_only_duplicates(old(diagnostics)@, final(diagnostics)@),
        final(diagnostics)@.len() == old(diagnostics)@.len() + 1 ==> *final(table) == *old(table),
        final(diagnostics)@.len() == old(diagnostics)@.len() ==> exists|info: StringInfo|
            info.text@ == spec_line_text(line.segments@) && info.is_implicit_tag == (line_tag_index(
                line.hashtags@,
                0,
            ) < 0) && info.node_name@ == node_name@ && info.file_name@ == file_name@
                && final(table).entries@ == put_entry(old(table).entries@, (r, info)),
{
    let text = line_text(&line.segments);
    let tag = find_line_tag(&line.hashtags);
    proof {
        lemma_line_tag_index_bounds(line.hashtags@, 0);
    }
    let info = StringInfo {
        text,
        node_name: node_name.clone(),
        line_number: line.context.start.line,
        file_name: file_name.clone(),
        is_implicit_tag: false,
        metadata: line_metadata(&line.hashtags, tag),
    };
    match tag {
        Some(k) => {
            let id = line.hashtags[k].clone();
            if table.position(&id).is_some() {
                diagnostics.push(duplicate_report(file_name, &line.context, "line ID", &id));
                return id;
            }
            let ghost stored = with_implicit_tag(info, false);
            let r = table.insert(Some(id), info);
            assert(stored.text@ == spec_line_text(line.segments@));
            r
        },
        None => {
            let ghost stored = with_implicit_tag(info, true);
            let r = table.insert(None, info);
            assert(stored.text@ == spec_line_text(line.segments@));
            r
        },
    }
}

/// Records the lines of a body in source order, nested ones included, and
/// appends their ids to `ids`.
pub fn extract_statements(
    file_name: &String,
    node_name: &String,
    body: &Vec<Statement>,
    table: &mut StringTableManager,
    diagnostics: &mut Vec<Diagnostic>,
    ids: &mut Vec<String>,
)
    requires
        old(table).wf(),
    ensures
        final(table).wf(),
        adds_only_duplicates(old(diagnostics)@, final(diagnostics)@),
        final(ids)@.len() == old(ids)@.len() + lines_of(body@),
        forall|k: int| 0 <= k < old(ids)@.len() ==> final(ids)@[k] == old(ids)@[k],
        no_explicit_ids(body@) ==> final(diagnostics)@ == old(diagnostics)@,
        forall|i: int| 0 <= i < body@.len() && (#[trigger] explicit_id_of(body@[i])) is Some
            ==> final(ids)@[(old(ids)@.len() + body_lines(body@, i)) as int]@ == explicit_id_of(body@[i])->0,
    decreases body,
{
    let mut i: usize = 0;
    while i < body.len()
        invariant
            i <= body@.len(),
            table.wf(),
            adds_only_duplicates(old(diagnostics)@, diagnostics@),
            ids@.len() == old(ids)@.len() + body_lines(body@, i as int),
            forall|k: int| 0 <= k < old(ids)@.len() ==> ids@[k] == old(ids)@[k],
            body_explicit(body@, i as int) == 0 ==> diagnostics@ == old(diagnostics)@,
            forall|k: int| 0 <= k < i && (#[trigger] explicit_id_of(body@[k])) is Some
                ==> ids@[(old(ids)@.len() + body_lines(body@, k)) as int]@ == explicit_id_of(body@[k])->0,
        decreases body@.len() - i,
    {
        let ghost base = ids@;
        let ghost base_d = diagnostics@;
        match &body[i] {
            Statement::Line(line) => {
                let id = extract_line(file_name, node_name, line, table, diagnostics);
                ids.push(id);
                proof {
                    assert(body@[i as int] == Statement::Line(*line));
                }
            },
            Statement::Options(os) => {
                // The option lines come first, in order, then the bodies: the
                // order in which their code is emitted.
                let mut j: usize = 0;
                while j < os.options.len()
                    invariant
                        j <= os.options@.len(),
                        table.wf(),
                        adds_only_duplicates(old(diagnostics)@, diagnostics@),
                        ids@.len() == base.len() + j,
                        forall|k: int| 0 <= k < base.len() ==> ids@[k] == base[k],
                        i < body@.len(),
                        body@[i as int] is Options,
                        body@[i as int]->Options_0 == *os,
                        option_lines_explicit(os.options@, j as int) == 0 ==> diagnostics@ == base_d,
                    decreases os.options@.len() - j,
                {
                    let id = extract_line(file_name, node_name, &os.options[j].line, table, diagnostics);
                    ids.push(id);
                    j = j + 1;
                }
                let mut j: usize = 0;
                while j < os.options.len()
                    invariant
                        j <= os.options@.len(),
                        table.wf(),
                        adds_only_duplicates(old(diagnostics)@, diagnostics@),
                        ids@.len() == base.len() + os.options@.len() + options_lines(os.options@, j as int),
                        forall|k: int| 0 <= k < base.len() ==> ids@[k] == base[k],
                        option_lines_explicit(os.options@, os.options@.len() as int) + options_explicit(os.options@, j as int) == 0
                            ==> diagnostics@ == base_d,
                        i < body@.len(),
                        body@[i as int] is Options,
                        body@[i as int]->Options_0 == *os,
                    decreases os.options@.len() - j,
                {
                    let option = &os.options[j];
                    proof {
                        assert(decreases_to!(*body => body@[i as int]));
                        assert(decreases_to!(body@[i as int] => body@[i as int]->Options_0));
                        assert(decreases_to!(*os => os.options));
                        assert(decreases_to!(os.options => os.options[j as int]));
                        assert(os.options[j as int] == *option);
                        assert(decreases_to!(*option => option.body));
                        assert(decreases_to!(*body => option.body));
                    }
                    extract_statements(file_name, node_name, &option.body, table, diagnostics, ids);
                    j = j + 1;
                }
                proof {
                    assert(body@[i as int] == Statement::Options(*os));
                }
            },
            Statement::If(ifs) => {
                let mut j: usize = 0;
                while j < ifs.clauses.len()
                    invariant
                        j <= ifs.clauses@.len(),
                        table.wf(),
                        adds_only_duplicates(old(diagnostics)@, diagnostics@),
                        ids@.len() == base.len() + clauses_lines(ifs.clauses@, j as int),
                        forall|k: int| 0 <= k < base.len() ==> ids@[k] == base[k],
                        clauses_explicit(ifs.clauses@, j as int) == 0 ==> diagnostics@ == base_d,
                        i < body@.len(),
                        body@[i as int] is If,
                        body@[i as int]->If_0 == *ifs,
                    decreases ifs.clauses@.len() - j,
                {
                    let clause = &ifs.clauses[j];
                    proof {
                        assert(decreases_to!(*body => body@[i as int]));
                        assert(decreases_to!(body@[i as int] => body@[i as int]->If_0));
                        assert(decreases_to!(*ifs => ifs.clauses));
                        assert(decreases_to!(ifs.clauses => ifs.clauses[j as int]));
                        assert(ifs.clauses[j as int] == *clause);
                        assert(decreases_to!(*clause => clause.body));
                        assert(decreases_to!(*body => clause.body));
                    }
                    extract_statements(file_name, node_name, &clause.body, table, diagnostics, ids);
                    j = j + 1;
                }
                proof {
                    assert(decreases_to!(*body => body@[i as int]));
                    assert(decreases_to!(body@[i as int] => body@[i as int]->If_0));
                    assert(decreases_to!(*ifs => ifs.else_body));
                    assert(decreases_to!(*body => ifs.else_body));
                }
                extract_statements(file_name, node_name, &ifs.else_body, table, diagnostics, ids);
                proof {
                    assert(body@[i as int] == Statement::If(*ifs));
                }
            },
            _ => {},
        }
        proof {
            assert(body_lines(body@, i + 1) == body_lines(body@, i as int) + statement_lines(body@[i as int]));
            lemma_body_lines_mono(body@, 0, i as int);
            assert forall|k: int| 0 <= k < i && (#[trigger] explicit_id_of(body@[k])) is Some
                implies ids@[(old(ids)@.len() + body_lines(body@, k)) as int]@ == explicit_id_of(body@[k])->0 by {
                lemma_body_lines_mono(body@, k + 1, i as int);
                assert(body_lines(body@, k + 1) == body_lines(body@, k) + statement_lines(body@[k]));
                assert(ids@[(old(ids)@.len() + body_lines(body@, k)) as int] == base[(old(ids)@.len() + body_lines(body@, k)) as int]);
            }
            assert(body_explicit(body@, i + 1) == body_explicit(body@, i as int) + statement_explicit(body@[i as int]));
        }
        i = i + 1;
    }
}

/// The title of a node: the value of its `title` header, or empty text.
pub fn node_title(node: &DialogueNode) -> (r: String)
    ensures
        first_header(node.headers@, "title"@, 0) >= 0 ==> r@ == node.headers@[first_header(
            node.headers@,
            "title"@,
            0,
        )].value@,
        first_header(node.headers@, "title"@, 0) < 0 ==> r@.len() == 0,
{
    proof {
        lemma_first_header_bounds(node.headers@, "title"@, 0);
    }
    let title = String::from_str("title");
    let mut i: usize = 0;
    while i < node.headers.len()
        invariant
            i <= node.headers@.len(),
            title@ == "title"@,
            first_header(node.headers@, "title"@, i as int) == first_header(node.headers@, "title"@, 0),
        decreases node.headers@.len() - i,
    {
        if node.headers[i].key == title {
            return node.headers[i].value.clone();
        }
        i = i + 1;
    }
    String::new()
}

} // verus!
