use vstd::prelude::*;
use crate::text::{decimal, file_stem, filename, push_decimal, spec_file_stem, spec_filename};

verus! {

/// What the string table records of one line of localizable text.
#[derive(Debug)]
pub struct StringInfo {
    /// The text of the line, with inline expressions replaced by `{0}`,
    /// `{1}`, ... in source order.
    pub text: String,
    pub node_name: String,
    pub line_number: usize,
    pub file_name: String,
    /// Whether the compiler made up the line's id.
    pub is_implicit_tag: bool,
    pub metadata: Vec<String>,
}

/// The info with its implicit-tag flag set as given.
pub open spec fn with_implicit_tag(info: StringInfo, implicit: bool) -> StringInfo {
    StringInfo { is_implicit_tag: implicit, ..info }
}

/// The id that the compiler makes up for a line without an explicit one:
/// `line:<file-without-extension>-<node>-<ordinal>`.
pub open spec fn implicit_line_id(file_name: Seq<char>, node_name: Seq<char>, ordinal: nat) -> Seq<char> {
    "line:"@ + spec_file_stem(spec_filename(file_name)) + "-"@ + node_name + "-"@ + decimal(ordinal)
}

/// The index of the entry with the given id, or -1.
pub open spec fn entry_index(entries: Seq<(String, StringInfo)>, id: Seq<char>) -> int
    decreases entries.len(),
{
    if entries.len() == 0 {
        -1
    } else if entries.last().0@ == id {
        entries.len() - 1
    } else {
        entry_index(entries.drop_last(), id)
    }
}

/// The entries after storing `entry`: it replaces the entry with the same id,
/// or comes last where there is none.
pub open spec fn put_entry(entries: Seq<(String, StringInfo)>, entry: (String, StringInfo)) -> Seq<(String, StringInfo)> {
    let k = entry_index(entries, entry.0@);
    if k >= 0 {
        entries.update(k, entry)
    } else {
        entries.push(entry)
    }
}

/// The entries after storing each of `others` in turn.
pub open spec fn put_entries(entries: Seq<(String, StringInfo)>, others: Seq<(String, StringInfo)>) -> Seq<(String, StringInfo)>
    decreases others.len(),
{
    if others.len() == 0 {
        entries
    } else {
        put_entry(put_entries(entries, others.drop_last()), others.last())
    }
}

/// No two entries share an id.
pub open spec fn ids_unique(entries: Seq<(String, StringInfo)>) -> bool {
    forall|i: int, j: int| 0 <= i < j < entries.len() ==> entries[i].0@ != entries[j].0@
}

/// Whether some entry has a made-up id.
pub open spec fn has_implicit_entry(entries: Seq<(String, StringInfo)>) -> bool {
    exists|i: int| 0 <= i < entries.len() && (#[trigger] entries[i]).1.is_implicit_tag
}

pub proof fn lemma_entry_index(entries: Seq<(String, StringInfo)>, id: Seq<char>, k: int)
    requires
        -1 <= k < entries.len(),
        k >= 0 ==> entries[k].0@ == id,
        forall|j: int| k < j < entries.len() ==> (#[trigger] entries[j]).0@ != id,
    ensures
        entry_index(entries, id) == k,
    decreases entries.len(),
{
    if entries.len() > 0 && entries.last().0@ != id {
        let front = entries.drop_last();
        assert forall|j: int| k < j < front.len() implies (#[trigger] front[j]).0@ != id by {
            assert(front[j] == entries[j]);
        }
        lemma_entry_index(front, id, k);
    }
}

pub proof fn lemma_entry_index_bounds(entries: Seq<(String, StringInfo)>, id: Seq<char>)
    ensures
        -1 <= entry_index(entries, id) < entries.len(),
        entry_index(entries, id) >= 0 ==> entries[entry_index(entries, id)].0@ == id,
        entry_index(entries, id) < 0 ==> forall|j: int| 0 <= j < entries.len() ==> (#[trigger] entries[j]).0@ != id,
    decreases entries.len(),
{
    if entries.len() > 0 {
        lemma_entry_index_bounds(entries.drop_last(), id);
        assert(forall|j: int| 0 <= j < entries.len() - 1 ==> entries.drop_last()[j] == entries[j]);
    }
}

pub proof fn lemma_put_entry_unique(entries: Seq<(String, StringInfo)>, entry: (String, StringInfo))
    requires
        ids_unique(entries),
    ensures
        ids_unique(put_entry(entries, entry)),
{
    lemma_entry_index_bounds(entries, entry.0@);
}

proof fn lemma_put_own_prefix(entries: Seq<(String, StringInfo)>, k: int)
    requires
        ids_unique(entries),
        0 <= k <= entries.len(),
    ensures
        put_entries(entries, entries.subrange(0, k)) == entries,
    decreases k,
{
    if k > 0 {
        let part = entries.subrange(0, k);
        assert(part.drop_last() =~= entries.subrange(0, k - 1));
        lemma_put_own_prefix(entries, k - 1);
        lemma_entry_index(entries, entries[k - 1].0@, k - 1);
        assert(entries.update(k - 1, entries[k - 1]) =~= entries);
    }
}

/// Storing the lines of a table into that same table changes nothing: a
/// table combined with itself is the table.
pub proof fn lemma_extend_with_itself(entries: Seq<(String, StringInfo)>)
    requires
        ids_unique(entries),
    ensures
        put_entries(entries, entries) == entries,
{
    lemma_put_own_prefix(entries, entries.len() as int);
    assert(entries.subrange(0, entries.len() as int) =~= entries);
}

/// A made-up id depends on nothing but the file, the node and the number of
/// lines in the table before it: compiling the same source again, the same
/// line gets the same id.
pub proof fn lemma_implicit_id_stable(
    file_name: Seq<char>,
    node_name: Seq<char>,
    before_a: Seq<(String, StringInfo)>,
    before_b: Seq<(String, StringInfo)>,
)
    requires
        before_a.len() == before_b.len(),
    ensures
        implicit_line_id(file_name, node_name, before_a.len()) == implicit_line_id(
            file_name,
            node_name,
            before_b.len(),
        ),
{
}

proof fn lemma_rebuild_prefix(entries: Seq<(String, StringInfo)>, k: int)
    requires
        ids_unique(entries),
        0 <= k <= entries.len(),
    ensures
        put_entries(seq![], entries.subrange(0, k)) == entries.subrange(0, k),
    decreases k,
{
    if k > 0 {
        let part = entries.subrange(0, k);
        let front = entries.subrange(0, k - 1);
        assert(part.drop_last() =~= front);
        lemma_rebuild_prefix(entries, k - 1);
        assert forall|j: int| -1 < j < front.len() implies (#[trigger] front[j]).0@ != entries[k - 1].0@ by {
            assert(front[j] == entries[j]);
        }
        lemma_entry_index(front, entries[k - 1].0@, -1);
        assert(front.push(entries[k - 1]) =~= part);
    }
}

/// Storing the lines of a table, in order and under their own ids, into an
/// empty table rebuilds exactly that table: a table whose ids all come from
/// the source is reproduced, ids included, when the same source is compiled
/// again.
pub proof fn lemma_rebuild_identical(entries: Seq<(String, StringInfo)>)
    requires
        ids_unique(entries),
    ensures
        put_entries(seq![], entries) == entries,
{
    lemma_rebuild_prefix(entries, entries.len() as int);
    assert(entries.subrange(0, entries.len() as int) =~= entries);
}

/// The string table of a compilation: line ids with what is known of each
/// line, no id twice, in order of first insertion.
#[derive(Debug)]
pub struct StringTableManager {
    pub entries: Vec<(String, StringInfo)>,
}

impl StringTableManager {
    /// The table's invariant: no id twice.
    pub open spec fn wf(&self) -> bool {
        ids_unique(self.entries@)
    }

    /// An empty table.
    pub fn new() -> (r: StringTableManager)
        ensures
            r.wf(),
            r.entries@.len() == 0,
    {
        StringTableManager { entries: Vec::new() }
    }

    /// The number of lines in the table.
    pub fn len(&self) -> (r: usize)
        ensures
            r == self.entries@.len(),
    {
        self.entries.len()
    }

    /// Whether some line of the table has an id that the compiler made up.
    pub fn contains_implicit_string_tags(&self) -> (r: bool)
        ensures
            r == has_implicit_entry(self.entries@),
    {
        let mut i: usize = 0;
        while i < self.entries.len()
            invariant
                i <= self.entries@.len(),
                forall|j: int| 0 <= j < i ==> !(#[trigger] self.entries@[j]).1.is_implicit_tag,
            decreases self.entries@.len() - i,
        {
            if self.entries[i].1.is_implicit_tag {
                return true;
            }
            i = i + 1;
        }
        false
    }

    /// The position of the line with the given id.
    pub fn position(&self, id: &String) -> (r: Option<usize>)
        ensures
            r matches Some(k) ==> k as int == entry_index(self.entries@, id@),
            r is None ==> entry_index(self.entries@, id@) == -1,
    {
        let mut i: usize = self.entries.len();
        while i > 0
            invariant
                i <= self.entries@.len(),
                forall|j: int| i <= j < self.entries@.len() ==> (#[trigger] self.entries@[j]).0@ != id@,
            decreases i,
        {
            if self.entries[i - 1].0 == *id {
                proof {
                    lemma_entry_index(self.entries@, id@, i - 1);
                }
                return Some(i - 1);
            }
            i = i - 1;
        }
        proof {
            lemma_entry_index(self.entries@, id@, -1);
        }
        None
    }

    /// Stores an entry: it replaces the line with the same id, or comes last.
    pub fn put(&mut self, id: String, info: StringInfo)
        requires
            old(self).wf(),
        ensures
            final(self).wf(),
            final(self).entries@ == put_entry(old(self).entries@, (id, info)),
    {
        proof {
            lemma_put_entry_unique(self.entries@, (id, info));
            lemma_entry_index_bounds(self.entries@, id@);
        }
        match self.position(&id) {
            Some(k) => {
                self.entries.set(k, (id, info));
            },
            None => {
                self.entries.push((id, info));
            },
        }
    }

    /// Inserts a line, with its explicit id where it has one and with a
    /// made-up one otherwise, and returns the id used. The info's
    /// implicit-tag flag is set accordingly; the value it came with is
    /// ignored.
    pub fn insert(&mut self, line_id: Option<String>, string_info: StringInfo) -> (r: String)
        requires
            old(self).wf(),
        ensures
            final(self).wf(),
            line_id matches Some(id) ==> r == id,
            line_id is None ==> r@ == implicit_line_id(
                string_info.file_name@,
                string_info.node_name@,
                old(self).entries@.len(),
            ),
            final(self).entries@ == put_entry(
                old(self).entries@,
                (r, with_implicit_tag(string_info, line_id is None)),
            ),
    {
        let implicit = line_id.is_none();
        let id = match line_id {
            Some(id) => id,
            None => {
                let name = filename(string_info.file_name.as_str());
                let stem = file_stem(name.as_str());
                let mut id = String::from_str("line:");
                id.append(stem.as_str());
                id.append("-");
                id.append(string_info.node_name.as_str());
                id.append("-");
                push_decimal(&mut id, self.entries.len());
                id
            },
        };
        let info = StringInfo { is_implicit_tag: implicit, ..string_info };
        let r = id.clone();
        self.put(id, info);
        r
    }

    /// Stores every line of `other` in turn; a line of `other` replaces the
    /// line with the same id.
    pub fn extend(&mut self, other: StringTableManager)
        requires
            old(self).wf(),
        ensures
            final(self).wf(),
            final(self).entries@ == put_entries(old(self).entries@, other.entries@),
    {
        let ghost start = self.entries@;
        let ghost others = other.entries@;
        let mut rest = other.entries;
        while rest.len() > 0
            invariant
                self.wf(),
                rest@.len() <= others.len(),
                rest@ =~= others.subrange(others.len() - rest@.len(), others.len() as int),
                self.entries@ == put_entries(start, others.subrange(0, others.len() - rest@.len())),
            decreases rest@.len(),
        {
            let ghost done = others.len() - rest@.len();
            let e = rest.remove(0);
            proof {
                assert(others[done] == e);
                assert(others.subrange(0, done + 1).drop_last() =~= others.subrange(0, done));
            }
            self.put(e.0, e.1);
        }
        assert(others.subrange(0, others.len() as int) =~= others);
    }
}

} // verus!
