//! Which code offsets of which guest modules have been seen.

use std::collections::HashSet;
use vstd::prelude::*;
use vstd::set_lib::{lemma_int_range, lemma_set_subset_finite, set_int_range};

verus! {

/// Unknown module name
pub const UNKNOWN_MODULE_NAME: &'static str = "<unknown>";

/// The offsets seen in one module.
struct ModuleCoverage {
    /// Name of the module
    name: String,
    /// Offsets seen in it
    offsets: HashSet<usize>,
}

/// Code coverage information per module.
pub struct Coverage {
    modules: Vec<ModuleCoverage>,
}

/// Where in a list of modules a name stands.
spec fn is_at(modules: Seq<ModuleCoverage>, name: Seq<char>, i: int) -> bool {
    0 <= i < modules.len() && modules[i].name@ == name
}

/// The offsets of each module in a list.
spec fn offsets_by_name(modules: Seq<ModuleCoverage>) -> Map<Seq<char>, Set<usize>> {
    Map::new(
        |name: Seq<char>| exists|i: int| is_at(modules, name, i),
        |name: Seq<char>| modules[choose|i: int| is_at(modules, name, i)].offsets@,
    )
}

impl View for Coverage {
    type V = Map<Seq<char>, Set<usize>>;

    closed spec fn view(&self) -> Map<Seq<char>, Set<usize>> {
        offsets_by_name(self.modules@)
    }
}

/// The offsets seen in a module, none if the module has not been seen.
pub open spec fn seen(coverage: Map<Seq<char>, Set<usize>>, name: Seq<char>) -> Set<usize> {
    if coverage.contains_key(name) {
        coverage[name]
    } else {
        Set::empty()
    }
}

impl Coverage {
    /// Whether each module is listed once.
    pub closed spec fn wf(&self) -> bool {
        names_are_distinct(self.modules@)
    }

    /// Coverage before anything has been seen.
    pub fn new() -> (res: Self)
        ensures
            res.wf(),
            res@ == Map::<Seq<char>, Set<usize>>::empty(),
    {
        let res: Coverage = Coverage { modules: Vec::new() };
        assert(res@ =~= Map::<Seq<char>, Set<usize>>::empty());
        res
    }

    /// Insert an offset into a module's coverage, `None` standing for an
    /// unknown module. Returns whether it is seen for the first time.
    pub fn record(&mut self, module: Option<&str>, offset: usize) -> (res: bool)
        requires
            old(self).wf(),
        ensures
            final(self).wf(),
            res == !seen(old(self)@, module_name(module)).contains(offset),
            final(self)@ == recorded(old(self)@, module_name(module), offset),
            module matches Some(name) ==> final(self)@ == recorded(old(self)@, name@, offset),
            module is None ==> final(self)@ == recorded(old(self)@, "<unknown>"@, offset),
    {
        broadcast use vstd::std_specs::hash::group_hash_axioms;

        let name: String = match module {
            Some(name) => name.to_owned(),
            None => UNKNOWN_MODULE_NAME.to_owned(),
        };
        let ghost before = self.modules@;
        let mut i: usize = 0;
        while i < self.modules.len()
            invariant
                i <= self.modules@.len(),
                *self == *old(self),
                before == self.modules@,
                self.wf(),
                name@ == module_name(module),
                forall|j: int| 0 <= j < i ==> (#[trigger] before[j]).name@ != name@,
            decreases self.modules@.len() - i,
        {
            if self.modules[i].name == name {
                proof {
                    lemma_name_decides(before, i as int);
                }
                let fresh: bool = self.modules[i].offsets.insert(offset);
                proof {
                    lemma_offsets_updated(before, self.modules@, i as int);
                }
                return fresh;
            }
            i = i + 1;
        }
        // Create a new entry for this module
        let mut offsets: HashSet<usize> = HashSet::new();
        offsets.insert(offset);
        self.modules.push(ModuleCoverage { name, offsets });
        proof {
            assert forall|j: int| !is_at(before, name@, j) by {}
            lemma_offsets_pushed(before, self.modules@);
        }
        true
    }
}

/// The name that stands for a module.
pub open spec fn module_name(module: Option<&str>) -> Seq<char> {
    match module {
        Some(name) => name@,
        None => UNKNOWN_MODULE_NAME@,
    }
}

/// The coverage after an offset has been seen in a module.
pub open spec fn recorded(
    coverage: Map<Seq<char>, Set<usize>>,
    name: Seq<char>,
    offset: usize,
) -> Map<Seq<char>, Set<usize>> {
    coverage.insert(name, seen(coverage, name).insert(offset))
}

/// Whether each module in a list has a name of its own.
spec fn names_are_distinct(modules: Seq<ModuleCoverage>) -> bool {
    forall|i: int, j: int|
        0 <= i < modules.len() && 0 <= j < modules.len() && i != j ==> (
        #[trigger] modules[i]).name@ != (#[trigger] modules[j]).name@
}

/// In a list with distinct names, a module's entry gives its offsets.
proof fn lemma_name_decides(modules: Seq<ModuleCoverage>, i: int)
    requires
        names_are_distinct(modules),
        0 <= i < modules.len(),
    ensures
        offsets_by_name(modules).contains_key(modules[i].name@),
        offsets_by_name(modules)[modules[i].name@] == modules[i].offsets@,
{
    let name = modules[i].name@;
    assert(is_at(modules, name, i));
    let k = choose|k: int| is_at(modules, name, k);
    assert(is_at(modules, name, k));
    if k != i {
        assert(modules[k].name@ != modules[i].name@);
    }
}

/// New offsets in one entry are new offsets of that module.
proof fn lemma_offsets_updated(before: Seq<ModuleCoverage>, after: Seq<ModuleCoverage>, i: int)
    requires
        names_are_distinct(before),
        0 <= i < before.len(),
        after == before.update(i, after[i]),
        after[i].name@ == before[i].name@,
    ensures
        names_are_distinct(after),
        offsets_by_name(after) == offsets_by_name(before).insert(
            before[i].name@,
            after[i].offsets@,
        ),
{
    assert forall|j: int| 0 <= j < after.len() implies (#[trigger] after[j]).name@
        == before[j].name@ by {}
    assert(names_are_distinct(after)) by {
        assert forall|j: int, k: int|
            0 <= j < after.len() && 0 <= k < after.len() && j != k implies (
        #[trigger] after[j]).name@ != (#[trigger] after[k]).name@ by {
            assert(before[j].name@ != before[k].name@);
        }
    }
    let left = offsets_by_name(after);
    let right = offsets_by_name(before).insert(before[i].name@, after[i].offsets@);
    assert forall|name: Seq<char>| left.contains_key(name) == #[trigger] right.contains_key(
        name,
    ) by {
        if left.contains_key(name) {
            let j = choose|j: int| is_at(after, name, j);
            assert(is_at(before, name, j));
        }
        if offsets_by_name(before).contains_key(name) {
            let j = choose|j: int| is_at(before, name, j);
            assert(is_at(after, name, j));
        }
        assert(is_at(after, before[i].name@, i));
    }
    assert forall|name: Seq<char>| #[trigger] left.contains_key(name) implies left[name]
        == right[name] by {
        let j = choose|j: int| is_at(after, name, j);
        assert(is_at(after, name, j));
        lemma_name_decides(after, j);
        lemma_name_decides(before, j);
        if j != i {
            assert(before[j].name@ != before[i].name@);
        }
    }
    assert(left =~= right);
}

/// A new entry adds a module.
proof fn lemma_offsets_pushed(before: Seq<ModuleCoverage>, after: Seq<ModuleCoverage>)
    requires
        names_are_distinct(before),
        after.len() == before.len() + 1,
        after == before.push(after.last()),
        forall|j: int| !#[trigger] is_at(before, after.last().name@, j),
    ensures
        names_are_distinct(after),
        !offsets_by_name(before).contains_key(after.last().name@),
        offsets_by_name(after) == offsets_by_name(before).insert(
            after.last().name@,
            after.last().offsets@,
        ),
{
    let last = before.len() as int;
    assert forall|j: int| 0 <= j < last implies (#[trigger] after[j]).name@
        != after.last().name@ by {
        assert(!is_at(before, after.last().name@, j));
    }
    assert(names_are_distinct(after)) by {
        assert forall|j: int, k: int|
            0 <= j < after.len() && 0 <= k < after.len() && j != k implies (
        #[trigger] after[j]).name@ != (#[trigger] after[k]).name@ by {
            if j < last && k < last {
                assert(before[j].name@ != before[k].name@);
            }
        }
    }
    let left = offsets_by_name(after);
    let right = offsets_by_name(before).insert(after.last().name@, after.last().offsets@);
    assert forall|name: Seq<char>| left.contains_key(name) == #[trigger] right.contains_key(
        name,
    ) by {
        if left.contains_key(name) {
            let j = choose|j: int| is_at(after, name, j);
            if j < last {
                assert(is_at(before, name, j));
            }
        }
        if offsets_by_name(before).contains_key(name) {
            let j = choose|j: int| is_at(before, name, j);
            assert(is_at(after, name, j));
        }
        assert(is_at(after, after.last().name@, last));
    }
    assert forall|name: Seq<char>| #[trigger] left.contains_key(name) implies left[name]
        == right[name] by {
        let j = choose|j: int| is_at(after, name, j);
        assert(is_at(after, name, j));
        lemma_name_decides(after, j);
        if j < last {
            lemma_name_decides(before, j);
        }
    }
    assert(left =~= right);
}

/// One line of a coverage report.
pub struct CoverageRow {
    /// Name of the module
    pub module: String,
    /// Number of offsets seen in it
    pub unique_offsets: usize,
}

/// What is reported of the coverage so far.
pub struct CoverageReport {
    /// The modules
    pub rows: Vec<CoverageRow>,
    /// Number of offsets seen in modules with a name
    pub named_sum: u128,
    /// Number of offsets seen
    pub sum: u128,
}

/// The sum of the rows.
pub open spec fn sum_of(rows: Seq<CoverageRow>) -> nat
    decreases rows.len(),
{
    if rows.len() == 0 {
        0
    } else {
        sum_of(rows.drop_last()) + rows.last().unique_offsets as nat
    }
}

/// The sum of the rows without that of the unknown module.
pub open spec fn named_sum_of(rows: Seq<CoverageRow>) -> nat
    decreases rows.len(),
{
    if rows.len() == 0 {
        0
    } else if rows.last().module@ == UNKNOWN_MODULE_NAME@ {
        named_sum_of(rows.drop_last())
    } else {
        named_sum_of(rows.drop_last()) + rows.last().unique_offsets as nat
    }
}

/// Whether the rows are those of the modules in `coverage`: one for each, with
/// the number of its offsets.
pub open spec fn lists(rows: Seq<CoverageRow>, coverage: Map<Seq<char>, Set<usize>>) -> bool {
    &&& forall|i: int|
        0 <= i < rows.len() ==> coverage.contains_key((#[trigger] rows[i]).module@)
            && coverage[rows[i].module@].len() == rows[i].unique_offsets
    &&& forall|name: Seq<char>| #[trigger]
        coverage.contains_key(name) ==> exists|i: int|
            0 <= i < rows.len() && (#[trigger] rows[i]).module@ == name
    &&& forall|i: int, j: int|
        0 <= i < rows.len() && 0 <= j < rows.len() && i != j ==> (#[trigger] rows[i]).module@ != (
        #[trigger] rows[j]).module@
}

/// The coverage table to be dumped to the console; `None` if there is nothing
/// to dump.
pub fn dump_coverage(coverage: &Coverage) -> (res: Option<CoverageReport>)
    requires
        coverage.wf(),
    ensures
        res is None <==> coverage@ == Map::<Seq<char>, Set<usize>>::empty(),
        res matches Some(report) ==> {
            &&& lists(report.rows@, coverage@)
            &&& forall|name: Seq<char>| #[trigger]
                coverage@.contains_key(name) ==> exists|i: int|
                    0 <= i < report.rows@.len() && (#[trigger] report.rows@[i]).module@ == name
                        && report.rows@[i].unique_offsets == coverage@[name].len()
            &&& report.sum == sum_of(report.rows@)
            &&& report.named_sum == named_sum_of(report.rows@)
        },
{
    broadcast use vstd::std_specs::hash::group_hash_axioms;

    let ghost modules = coverage.modules@;
    if coverage.modules.len() == 0 {
        proof {
            assert(coverage@ =~= Map::<Seq<char>, Set<usize>>::empty());
        }
        return None;
    }
    let unknown: String = UNKNOWN_MODULE_NAME.to_owned();
    let mut rows: Vec<CoverageRow> = Vec::new();
    let mut sum: u128 = 0;
    let mut named_sum: u128 = 0;
    let mut i: usize = 0;
    while i < coverage.modules.len()
        invariant
            i <= coverage.modules@.len(),
            modules == coverage.modules@,
            rows@.len() == i,
            unknown@ == UNKNOWN_MODULE_NAME@,
            forall|j: int|
                0 <= j < i ==> (#[trigger] rows@[j]).module@ == modules[j].name@
                    && rows@[j].unique_offsets == modules[j].offsets@.len(),
            sum == sum_of(rows@),
            named_sum == named_sum_of(rows@),
            sum <= i * 0xffff_ffff_ffff_ffff,
            named_sum <= i * 0xffff_ffff_ffff_ffff,
        decreases coverage.modules@.len() - i,
    {
        let count: usize = coverage.modules[i].offsets.len();
        let name: String = coverage.modules[i].name.clone();
        let ghost before = rows@;
        if name != unknown {
            named_sum = named_sum + count as u128;
        }
        sum = sum + count as u128;
        rows.push(CoverageRow { module: name, unique_offsets: count });
        proof {
            assert(rows@.drop_last() =~= before);
        }
        i = i + 1;
    }
    proof {
        assert forall|j: int| 0 <= j < rows@.len() implies coverage@.contains_key(
            (#[trigger] rows@[j]).module@,
        ) && coverage@[rows@[j].module@].len() == rows@[j].unique_offsets by {
            lemma_name_decides(modules, j);
        }
        assert forall|name: Seq<char>| #[trigger] coverage@.contains_key(name) implies exists|
            j: int,
        |
            0 <= j < rows@.len() && (#[trigger] rows@[j]).module@ == name by {
            let j = choose|j: int| is_at(modules, name, j);
            assert(rows@[j].module@ == name);
        }
        assert forall|j: int, k: int|
            0 <= j < rows@.len() && 0 <= k < rows@.len() && j != k implies (
        #[trigger] rows@[j]).module@ != (#[trigger] rows@[k]).module@ by {
            assert(modules[j].name@ != modules[k].name@);
        }
        assert(coverage@.contains_key(rows@[0].module@));
    }
    Some(CoverageReport { rows, named_sum, sum })
}

/// Seeing an offset again changes nothing, and it is no longer new.
pub proof fn law_seeing_again_changes_nothing(
    coverage: Map<Seq<char>, Set<usize>>,
    name: Seq<char>,
    offset: usize,
)
    ensures
        seen(recorded(coverage, name, offset), name).contains(offset),
        recorded(recorded(coverage, name, offset), name, offset) == recorded(
            coverage,
            name,
            offset,
        ),
{
    let once = recorded(coverage, name, offset);
    assert(seen(once, name).insert(offset) =~= seen(once, name));
    assert(recorded(once, name, offset) =~= once);
}

/// Nothing that has been seen is forgotten, in any module.
pub proof fn law_coverage_only_grows(
    coverage: Map<Seq<char>, Set<usize>>,
    name: Seq<char>,
    offset: usize,
    other: Seq<char>,
)
    ensures
        seen(coverage, other).subset_of(seen(recorded(coverage, name, offset), other)),
        other != name ==> seen(recorded(coverage, name, offset), other) == seen(coverage, other),
{
}

/// The two sums of a report differ by the number of offsets seen in the unknown
/// module.
pub proof fn law_sums_differ_by_the_unknown_module(
    rows: Seq<CoverageRow>,
    coverage: Map<Seq<char>, Set<usize>>,
)
    requires
        lists(rows, coverage),
    ensures
        sum_of(rows) == named_sum_of(rows) + seen(coverage, UNKNOWN_MODULE_NAME@).len(),
{
    if coverage.contains_key(UNKNOWN_MODULE_NAME@) {
        let i = choose|i: int|
            0 <= i < rows.len() && (#[trigger] rows[i]).module@ == UNKNOWN_MODULE_NAME@;
        lemma_sums_with_unknown(rows, i);
    } else {
        lemma_sums_without_unknown(rows);
    }
}

/// One offset that had not been seen changes a report by one: the sum grows by
/// one, the sum of the modules with a name does unless the module is the
/// unknown one, and no line of another module changes.
pub proof fn law_one_new_offset_adds_one(
    coverage: Map<Seq<char>, Set<usize>>,
    name: Seq<char>,
    offset: usize,
    rows: Seq<CoverageRow>,
    later: Seq<CoverageRow>,
)
    requires
        !seen(coverage, name).contains(offset),
        lists(rows, coverage),
        lists(later, recorded(coverage, name, offset)),
    ensures
        sum_of(later) == sum_of(rows) + 1,
        named_sum_of(later) == named_sum_of(rows) + if name == UNKNOWN_MODULE_NAME@ {
            0nat
        } else {
            1nat
        },
        forall|i: int, j: int|
            0 <= i < rows.len() && 0 <= j < later.len() && (#[trigger] rows[i]).module@ == (
            #[trigger] later[j]).module@ && rows[i].module@ != name ==> rows[i].unique_offsets
                == later[j].unique_offsets,
{
    let after = recorded(coverage, name, offset);
    assert(after.contains_key(name));
    let j = choose|j: int| 0 <= j < later.len() && (#[trigger] later[j]).module@ == name;
    lemma_offsets_are_finite(seen(coverage, name));
    assert(later[j].unique_offsets == seen(coverage, name).len() + 1);
    // The old rows with the new one of the module
    let changed = if coverage.contains_key(name) {
        let i = choose|i: int| 0 <= i < rows.len() && (#[trigger] rows[i]).module@ == name;
        let changed = rows.update(i, later[j]);
        lemma_sum_of_rest(rows, i);
        lemma_sum_of_rest(changed, i);
        assert(changed.remove(i) =~= rows.remove(i));
        assert forall|other: Seq<char>| #[trigger] after.contains_key(other) implies exists|k: int|
            0 <= k < changed.len() && (#[trigger] changed[k]).module@ == other by {
            assert(coverage.contains_key(other));
            let k = choose|k: int| 0 <= k < rows.len() && (#[trigger] rows[k]).module@ == other;
            assert(changed[k].module@ == other);
        }
        changed
    } else {
        let changed = rows.push(later[j]);
        assert(changed.drop_last() =~= rows);
        assert forall|other: Seq<char>| #[trigger] after.contains_key(other) implies exists|k: int|
            0 <= k < changed.len() && (#[trigger] changed[k]).module@ == other by {
            if other == name {
                assert(changed[rows.len() as int].module@ == other);
            } else {
                assert(coverage.contains_key(other));
                let k = choose|k: int| 0 <= k < rows.len() && (#[trigger] rows[k]).module@ == other;
                assert(changed[k].module@ == other);
            }
        }
        changed
    };
    assert(lists(changed, after));
    lemma_sums_do_not_depend_on_order(changed, later, after);
}

/// Every set of offsets is finite.
proof fn lemma_offsets_are_finite(offsets: Set<usize>)
    ensures
        offsets.finite(),
{
    let numbers = set_int_range(0, usize::MAX + 1);
    lemma_int_range(0, usize::MAX + 1);
    let all = numbers.map(|i: int| i as usize);
    numbers.lemma_map_finite(|i: int| i as usize);
    assert forall|offset: usize| offsets.contains(offset) implies all.contains(offset) by {
        assert(numbers.contains(offset as int));
        assert((offset as int) as usize == offset);
    }
    lemma_set_subset_finite(all, offsets);
}

/// What a row counts as in the sum of the modules with a name.
spec fn named_offsets(row: CoverageRow) -> nat {
    if row.module@ == UNKNOWN_MODULE_NAME@ {
        0
    } else {
        row.unique_offsets as nat
    }
}

/// The sums are those of a row and of the other rows.
proof fn lemma_sum_of_rest(rows: Seq<CoverageRow>, i: int)
    requires
        0 <= i < rows.len(),
    ensures
        sum_of(rows) == sum_of(rows.remove(i)) + rows[i].unique_offsets,
        named_sum_of(rows) == named_sum_of(rows.remove(i)) + named_offsets(rows[i]),
    decreases rows.len(),
{
    if i == rows.len() - 1 {
        assert(rows.remove(i) =~= rows.drop_last());
    } else {
        lemma_sum_of_rest(rows.drop_last(), i);
        assert(rows.remove(i).drop_last() =~= rows.drop_last().remove(i));
        assert(rows.remove(i).last() == rows.last());
    }
}

/// Without its row, rows list the coverage without the module.
proof fn lemma_lists_rest(rows: Seq<CoverageRow>, coverage: Map<Seq<char>, Set<usize>>, i: int)
    requires
        lists(rows, coverage),
        0 <= i < rows.len(),
    ensures
        lists(rows.remove(i), coverage.remove(rows[i].module@)),
{
    let rest = rows.remove(i);
    let fewer = coverage.remove(rows[i].module@);
    assert forall|k: int| 0 <= k < rest.len() implies (#[trigger] rest[k]) == rows[if k < i {
        k
    } else {
        k + 1
    }] by {}
    assert forall|name: Seq<char>| #[trigger] fewer.contains_key(name) implies exists|k: int|
        0 <= k < rest.len() && (#[trigger] rest[k]).module@ == name by {
        assert(coverage.contains_key(name));
        let k = choose|k: int| 0 <= k < rows.len() && (#[trigger] rows[k]).module@ == name;
        assert(rest[if k < i {
            k
        } else {
            k - 1
        }].module@ == name);
    }
}

/// Rows that list the same coverage have the same sums, in whichever order they
/// stand.
proof fn lemma_sums_do_not_depend_on_order(
    rows: Seq<CoverageRow>,
    other: Seq<CoverageRow>,
    coverage: Map<Seq<char>, Set<usize>>,
)
    requires
        lists(rows, coverage),
        lists(other, coverage),
    ensures
        sum_of(rows) == sum_of(other),
        named_sum_of(rows) == named_sum_of(other),
    decreases rows.len(),
{
    if rows.len() == 0 {
        if other.len() > 0 {
            assert(coverage.contains_key(other[0].module@));
        }
    } else {
        let last = rows.len() - 1;
        let name = rows[last].module@;
        assert(coverage.contains_key(name));
        let i = choose|i: int| 0 <= i < other.len() && (#[trigger] other[i]).module@ == name;
        lemma_lists_rest(rows, coverage, last);
        lemma_lists_rest(other, coverage, i);
        lemma_sums_do_not_depend_on_order(rows.remove(last), other.remove(i), coverage.remove(name));
        lemma_sum_of_rest(rows, last);
        lemma_sum_of_rest(other, i);
    }
}

proof fn lemma_sums_without_unknown(rows: Seq<CoverageRow>)
    requires
        forall|i: int|
            0 <= i < rows.len() ==> (#[trigger] rows[i]).module@ != UNKNOWN_MODULE_NAME@,
    ensures
        sum_of(rows) == named_sum_of(rows),
    decreases rows.len(),
{
    if rows.len() > 0 {
        lemma_sums_without_unknown(rows.drop_last());
    }
}

proof fn lemma_sums_with_unknown(rows: Seq<CoverageRow>, i: int)
    requires
        0 <= i < rows.len(),
        rows[i].module@ == UNKNOWN_MODULE_NAME@,
        forall|j: int|
            0 <= j < rows.len() && j != i ==> (#[trigger] rows[j]).module@ != UNKNOWN_MODULE_NAME@,
    ensures
        sum_of(rows) == named_sum_of(rows) + rows[i].unique_offsets,
    decreases rows.len(),
{
    if i == rows.len() - 1 {
        lemma_sums_without_unknown(rows.drop_last());
    } else {
        lemma_sums_with_unknown(rows.drop_last(), i);
    }
}

/// What has been seen after an offset has been recorded: what had been, and that
/// offset in that module. The modules are those from before, and that one.
pub proof fn law_recording_adds_that_offset_only(
    coverage: Map<Seq<char>, Set<usize>>,
    name: Seq<char>,
    offset: usize,
    other: Seq<char>,
    seen_offset: usize,
)
    ensures
        seen(recorded(coverage, name, offset), other).contains(seen_offset) <==> (other == name
            && seen_offset == offset) || (coverage.contains_key(other) && coverage[other].contains(
            seen_offset,
        )),
        recorded(coverage, name, offset).contains_key(other) <==> other == name
            || coverage.contains_key(other),
        seen(coverage, other).contains(seen_offset) <==> coverage.contains_key(other)
            && coverage[other].contains(seen_offset),
{
}

/// A module goes by its own name, and only a module without one by that of the
/// unknown module.
pub proof fn law_modules_go_by_their_names(name: &str)
    ensures
        module_name(Some(name)) == name@,
        module_name(None) == "<unknown>"@,
{
}

/// The sums of a report count each row once, the second one leaving out that of
/// the unknown module.
pub proof fn law_sums_count_each_row_once(rows: Seq<CoverageRow>, row: CoverageRow)
    ensures
        sum_of(Seq::empty()) == 0,
        named_sum_of(Seq::empty()) == 0,
        sum_of(rows.push(row)) == sum_of(rows) + row.unique_offsets,
        named_sum_of(rows.push(row)) == named_sum_of(rows) + if row.module@ == "<unknown>"@ {
            0
        } else {
            row.unique_offsets as int
        },
{
    assert(rows.push(row).drop_last() =~= rows);
}

} // verus!
