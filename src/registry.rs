//! The registry of output targets: which categories this run has opened, in
//! which slot, and whether a newly opened file needs its header line.
use vstd::prelude::*;

use crate::record::{index_of, is_first_index, lemma_index_of};

verus! {

/// The categories a run has opened so far; slot `i` is the `i`-th opened.
/// Callers keep their open files in the same slots.
pub struct WriterRegistry {
    categories: Vec<String>,
}

/// A header line is due when a run opens a category for the first time and
/// its file is missing or empty.
pub open spec fn header_due(opened: Seq<Seq<char>>, category: Seq<char>, had_content: bool) -> bool {
    !opened.contains(category) && !had_content
}

impl View for WriterRegistry {
    type V = Seq<Seq<char>>;

    closed spec fn view(&self) -> Seq<Seq<char>> {
        self.categories.deep_view()
    }
}

impl WriterRegistry {
    /// No category is registered twice.
    pub open spec fn wf(&self) -> bool {
        self@.no_duplicates()
    }

    pub fn new() -> (r: WriterRegistry)
        ensures
            r@ == Seq::<Seq<char>>::empty(),
            r.wf(),
    {
        let r = WriterRegistry { categories: Vec::new() };
        assert(r@ =~= Seq::<Seq<char>>::empty());
        r
    }

    /// The number of categories opened so far.
    pub fn len(&self) -> (r: usize)
        ensures
            r == self@.len(),
    {
        self.categories.len()
    }

    /// The slot of a category, if this run has opened it.
    pub fn slot_of(&self, category: &String) -> (r: Option<usize>)
        ensures
            r matches Some(j) ==> index_of(self@, category@) == Some(j as int),
            r is None <==> !self@.contains(category@),
    {
        let ghost cs = self@;
        let mut j: usize = 0;
        while j < self.categories.len()
            invariant
                j <= self.categories.len(),
                cs == self@,
                cs == self.categories.deep_view(),
                forall|k: int| 0 <= k < j ==> cs[k] != category@,
            decreases self.categories.len() - j,
        {
            if self.categories[j] == *category {
                proof {
                    assert(is_first_index(cs, category@, j as int));
                    lemma_index_of(cs, category@, j as int);
                }
                return Some(j);
            }
            j = j + 1;
        }
        proof {
            if cs.contains(category@) {
                let k = choose|k: int| 0 <= k < cs.len() && cs[k] == category@;
                assert(cs[k] != category@);
            }
        }
        None
    }

    /// Registers a category whose file has just been opened, and says in
    /// which slot it stands and whether its header line is due. A category
    /// already registered keeps its slot and gets no second header.
    pub fn register(&mut self, category: &String, had_content: bool) -> (r: (usize, bool))
        ensures
            old(self).wf() ==> final(self).wf(),
            r.1 == header_due(old(self)@, category@, had_content),
            old(self)@.contains(category@) ==> final(self)@ == old(self)@ && index_of(
                old(self)@,
                category@,
            ) == Some(r.0 as int),
            !old(self)@.contains(category@) ==> final(self)@ == old(self)@.push(category@)
                && r.0 == old(self)@.len(),
    {
        match self.slot_of(category) {
            Some(j) => (j, false),
            None => {
                let ghost before = self@;
                let slot = self.categories.len();
                self.categories.push(category.clone());
                assert(self@ =~= before.push(category@));
                assert(before.no_duplicates() ==> self@.no_duplicates()) by {
                    assert forall|a: int, b: int|
                        before.no_duplicates() && 0 <= a < self@.len() && 0 <= b < self@.len() && a
                        != b implies self@[a] != self@[b] by {
                        if a < before.len() && b < before.len() {
                            assert(before[a] != before[b]);
                        } else if a < before.len() {
                            assert(before.contains(before[a]));
                        } else {
                            assert(before.contains(before[b]));
                        }
                    }
                }
                (slot, !had_content)
            },
        }
    }
}

/// A line of an output file: the header, or a data row.
pub enum OutputLine {
    Header,
    Row,
}

/// For each category, the lines of its file.
pub type OutputFiles = Map<Seq<char>, Seq<OutputLine>>;

/// The lines of a category's file, none where there is no file.
pub open spec fn lines_of(files: OutputFiles, category: Seq<char>) -> Seq<OutputLine> {
    if files.contains_key(category) {
        files[category]
    } else {
        seq![]
    }
}

pub open spec fn has_content(files: OutputFiles, category: Seq<char>) -> bool {
    lines_of(files, category).len() > 0
}

/// `n` data rows.
pub open spec fn rows(n: nat) -> Seq<OutputLine> {
    Seq::new(n, |i: int| OutputLine::Row)
}

/// One merge: `n` data lines of `category` are appended, its file opened
/// and registered first where this run has not opened it yet; the header
/// goes in where it is due.
pub open spec fn merge(
    files: OutputFiles,
    opened: Seq<Seq<char>>,
    category: Seq<char>,
    n: nat,
) -> (OutputFiles, Seq<Seq<char>>) {
    let before = lines_of(files, category);
    let header = if header_due(opened, category, has_content(files, category)) {
        seq![OutputLine::Header]
    } else {
        seq![]
    };
    (
        files.insert(category, before + header + rows(n)),
        if opened.contains(category) {
            opened
        } else {
            opened.push(category)
        },
    )
}

/// Merges in the order in which workers took the registry.
pub open spec fn run_merges(
    files: OutputFiles,
    opened: Seq<Seq<char>>,
    merges: Seq<(Seq<char>, nat)>,
) -> (OutputFiles, Seq<Seq<char>>)
    decreases merges.len(),
{
    if merges.len() == 0 {
        (files, opened)
    } else {
        let prev = run_merges(files, opened, merges.drop_last());
        merge(prev.0, prev.1, merges.last().0, merges.last().1)
    }
}

/// A whole run over an output directory: a fresh registry, then the merges.
pub open spec fn run(files: OutputFiles, merges: Seq<(Seq<char>, nat)>) -> OutputFiles {
    run_merges(files, seq![], merges).0
}

/// The file holds exactly one header line, as its first line, and data rows
/// after it.
pub open spec fn headed(lines: Seq<OutputLine>) -> bool {
    &&& lines.len() > 0
    &&& lines[0] == OutputLine::Header
    &&& forall|i: int| 1 <= i < lines.len() ==> lines[i] == OutputLine::Row
}

/// Every file is empty or headed.
pub open spec fn well_headed(files: OutputFiles) -> bool {
    forall|c: Seq<char>| #[trigger] files.contains_key(c) ==> files[c].len() == 0 || headed(files[c])
}

/// The data lines of a file: all lines but a leading header.
pub open spec fn data_lines(lines: Seq<OutputLine>) -> int {
    if lines.len() > 0 && lines[0] == OutputLine::Header {
        lines.len() - 1
    } else {
        lines.len() as int
    }
}

/// The data lines that the merges append for `category`.
pub open spec fn rows_merged(merges: Seq<(Seq<char>, nat)>, category: Seq<char>) -> nat
    decreases merges.len(),
{
    if merges.len() == 0 {
        0
    } else {
        rows_merged(merges.drop_last(), category) + if merges.last().0 == category {
            merges.last().1
        } else {
            0
        }
    }
}

/// The state a run keeps between merges: files empty or headed, and every
/// category opened by the run headed.
pub open spec fn merge_state_ok(files: OutputFiles, opened: Seq<Seq<char>>) -> bool {
    &&& well_headed(files)
    &&& forall|c: Seq<char>| #[trigger] opened.contains(c) ==> headed(lines_of(files, c))
}

proof fn lemma_merge_step(files: OutputFiles, opened: Seq<Seq<char>>, category: Seq<char>, n: nat)
    requires
        merge_state_ok(files, opened),
    ensures
        ({
            let next = merge(files, opened, category, n);
            &&& merge_state_ok(next.0, next.1)
            &&& next.1.contains(category)
            &&& forall|c: Seq<char>| #[trigger] opened.contains(c) ==> next.1.contains(c)
            &&& data_lines(lines_of(next.0, category)) == data_lines(lines_of(files, category)) + n
            &&& forall|c: Seq<char>|
                c != category ==> #[trigger] lines_of(next.0, c) == lines_of(files, c)
        }),
{
    let next = merge(files, opened, category, n);
    let before = lines_of(files, category);
    let after = lines_of(next.0, category);
    if before.len() > 0 {
        assert(headed(before)) by {
            if opened.contains(category) {
            } else {
                assert(files.contains_key(category));
            }
        }
        assert(!header_due(opened, category, has_content(files, category)));
        assert(after =~= before + rows(n));
    } else {
        assert(!opened.contains(category));
        assert(after =~= seq![OutputLine::Header] + rows(n));
    }
    assert(headed(after));
    if !opened.contains(category) {
        assert(next.1[opened.len() as int] == category);
    }
    assert forall|c: Seq<char>| #[trigger] opened.contains(c) implies next.1.contains(c) by {
        if !opened.contains(category) {
            let k = choose|k: int| 0 <= k < opened.len() && opened[k] == c;
            assert(next.1[k] == c);
        }
    }
    assert forall|c: Seq<char>| #[trigger] next.1.contains(c) implies headed(lines_of(next.0, c)) by {
        if c != category {
            if !opened.contains(category) {
                let k = choose|k: int| 0 <= k < next.1.len() && next.1[k] == c;
                assert(k < opened.len());
                assert(opened[k] == c);
            }
            assert(opened.contains(c));
            assert(headed(lines_of(files, c)));
            assert(lines_of(next.0, c) == lines_of(files, c));
        }
    }
    assert forall|c: Seq<char>| #[trigger] next.0.contains_key(c) implies next.0[c].len() == 0
        || headed(next.0[c]) by {
        if c != category {
            assert(files.contains_key(c));
        }
    }
}

proof fn lemma_run_merges_state(
    files: OutputFiles,
    opened: Seq<Seq<char>>,
    merges: Seq<(Seq<char>, nat)>,
)
    requires
        merge_state_ok(files, opened),
    ensures
        merge_state_ok(run_merges(files, opened, merges).0, run_merges(files, opened, merges).1),
        forall|i: int|
            0 <= i < merges.len() ==> run_merges(files, opened, merges).1.contains(
                #[trigger] merges[i].0,
            ),
        forall|c: Seq<char>|
            data_lines(#[trigger] lines_of(run_merges(files, opened, merges).0, c)) == data_lines(
                lines_of(files, c),
            ) + rows_merged(merges, c),
        forall|c: Seq<char>|
            run_merges(files, opened, merges).0.contains_key(c) <==> (files.contains_key(c)
                || exists|i: int| 0 <= i < merges.len() && #[trigger] merges[i].0 == c),
    decreases merges.len(),
{
    if merges.len() > 0 {
        let rest = merges.drop_last();
        lemma_run_merges_state(files, opened, rest);
        let prev = run_merges(files, opened, rest);
        let m = merges.last();
        lemma_merge_step(prev.0, prev.1, m.0, m.1);
        let next = run_merges(files, opened, merges);
        assert(next == merge(prev.0, prev.1, m.0, m.1));
        assert forall|i: int| 0 <= i < merges.len() implies next.1.contains(
            #[trigger] merges[i].0,
        ) by {
            if i < rest.len() {
                assert(rest[i] == merges[i]);
                assert(prev.1.contains(rest[i].0));
            }
        }
        assert forall|c: Seq<char>|
            data_lines(#[trigger] lines_of(next.0, c)) == data_lines(lines_of(files, c))
                + rows_merged(merges, c) by {
            assert(data_lines(lines_of(prev.0, c)) == data_lines(lines_of(files, c)) + rows_merged(
                rest,
                c,
            ));
        }
        assert forall|c: Seq<char>|
            next.0.contains_key(c) <==> (files.contains_key(c) || exists|i: int|
                0 <= i < merges.len() && #[trigger] merges[i].0 == c) by {
            if exists|i: int| 0 <= i < merges.len() && #[trigger] merges[i].0 == c {
                let i = choose|i: int| 0 <= i < merges.len() && #[trigger] merges[i].0 == c;
                if i < rest.len() {
                    assert(rest[i] == merges[i]);
                }
            }
            if exists|i: int| 0 <= i < rest.len() && #[trigger] rest[i].0 == c {
                let i = choose|i: int| 0 <= i < rest.len() && #[trigger] rest[i].0 == c;
                assert(merges[i] == rest[i]);
            }
        }
    }
}

/// Header once: whatever order the workers merge in, and however many
/// workers there are, a run over files that are each empty or headed leaves
/// them so, and leaves every category it wrote to with exactly one header
/// line, as its first line, before all its data lines.
pub proof fn lemma_header_once(files: OutputFiles, merges: Seq<(Seq<char>, nat)>)
    requires
        well_headed(files),
    ensures
        well_headed(run(files, merges)),
        forall|i: int|
            0 <= i < merges.len() ==> headed(lines_of(run(files, merges), #[trigger] merges[i].0)),
{
    lemma_run_merges_state(files, seq![], merges);
    let r = run_merges(files, seq![], merges);
    assert forall|i: int| 0 <= i < merges.len() implies headed(
        lines_of(run(files, merges), #[trigger] merges[i].0),
    ) by {
        assert(r.1.contains(merges[i].0));
    }
}

/// Rows are appended, never dropped: after a run over files that are each
/// empty or headed, a category's file holds the data lines it held before
/// plus every row merged for it, and a file exists exactly where one existed
/// before or a merge named its category.
pub proof fn lemma_run_rows(files: OutputFiles, merges: Seq<(Seq<char>, nat)>, category: Seq<char>)
    requires
        well_headed(files),
    ensures
        data_lines(lines_of(run(files, merges), category)) == data_lines(lines_of(files, category))
            + rows_merged(merges, category),
        run(files, merges).contains_key(category) <==> (files.contains_key(category) || exists|i: int|
            0 <= i < merges.len() && #[trigger] merges[i].0 == category),
{
    lemma_run_merges_state(files, seq![], merges);
    assert(data_lines(lines_of(run(files, merges), category)) == data_lines(lines_of(files, category))
        + rows_merged(merges, category));
}

/// Append, not overwrite: running the same merges twice over a fresh output
/// directory leaves each file with twice the data lines of one run, and
/// still exactly one header line, first.
pub proof fn lemma_append_doubles(merges: Seq<(Seq<char>, nat)>)
    ensures
        ({
            let once = run(Map::empty(), merges);
            let twice = run(once, merges);
            &&& twice.dom() == once.dom()
            &&& forall|c: Seq<char>| #[trigger]
                once.contains_key(c) ==> data_lines(twice[c]) == 2 * data_lines(once[c])
                    && headed(once[c]) && headed(twice[c])
        }),
{
    let empty = Map::<Seq<char>, Seq<OutputLine>>::empty();
    let once = run(empty, merges);
    let twice = run(once, merges);
    assert(well_headed(empty));
    lemma_header_once(empty, merges);
    lemma_header_once(once, merges);
    assert forall|c: Seq<char>| #[trigger] once.contains_key(c) implies data_lines(twice[c]) == 2
        * data_lines(once[c]) && headed(once[c]) && headed(twice[c]) by {
        lemma_run_rows(empty, merges, c);
        lemma_run_rows(once, merges, c);
        let i = choose|i: int| 0 <= i < merges.len() && #[trigger] merges[i].0 == c;
        assert(headed(lines_of(once, merges[i].0)));
        assert(headed(lines_of(twice, merges[i].0)));
    }
    assert forall|c: Seq<char>| #[trigger] twice.contains_key(c) <==> once.contains_key(c) by {
        lemma_run_rows(once, merges, c);
        lemma_run_rows(empty, merges, c);
    }
    assert(twice.dom() =~= once.dom());
}

} // verus!
