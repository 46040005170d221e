//! Which sensors the daemon opens, and where each fan finds its temperatures.

use crate::config::{sensor_text, sensor_views, SensorSpec, SensorSpecView};
use crate::error::Error;
use crate::fan_controller::is_highest;
use crate::sensors::{has_reading, reading, SensorIdx, SensorPool, SensorReadings};
use crate::slots::SlotSensors;
use crate::text::{concat, same_text, texts};
use vstd::prelude::*;
use vstd::string::*;

verus! {

/// What each of several fans is driven by.
pub open spec fn spec_lists(fans: Seq<Vec<SensorSpec>>) -> Seq<Seq<SensorSpecView>> {
    Seq::new(fans.len(), |i: int| sensor_views(fans[i]@))
}

/// All entries of several lists, one list after the other.
pub open spec fn all_specs(fans: Seq<Seq<SensorSpecView>>) -> Seq<SensorSpecView>
    decreases fans.len(),
{
    if fans.len() == 0 {
        Seq::empty()
    } else {
        all_specs(fans.drop_last()) + fans.last()
    }
}

/// The slots that the entries name, each once, in the order in which they are first named.
pub open spec fn named_slots(specs: Seq<SensorSpecView>) -> Seq<Seq<char>>
    decreases specs.len(),
{
    if specs.len() == 0 {
        Seq::empty()
    } else {
        let before = named_slots(specs.drop_last());
        match specs.last() {
            SensorSpecView::Slot(n) if !before.contains(n) => before.push(n),
            _ => before,
        }
    }
}

/// Whether a text stands in a list, and where it does first.
fn find_text(list: &Vec<String>, s: &str) -> (r: Option<usize>)
    ensures
        match r {
            Some(i) => i < list.len() && list@[i as int]@ == s@,
            None => !texts(list@).contains(s@),
        },
{
    let mut i: usize = 0;
    while i < list.len()
        invariant
            i <= list.len(),
            forall|j: int| 0 <= j < i ==> (#[trigger] list@[j])@ != s@,
        decreases list.len() - i,
    {
        if same_text(list[i].as_str(), s) {
            return Some(i);
        }
        i = i + 1;
    }
    assert forall|j: int| 0 <= j < texts(list@).len() implies texts(list@)[j] != s@ by {
        assert(list@[j]@ != s@);
    }
    None
}

/// The slots that fans are driven by, each once.
pub fn unique_slots(fans: &Vec<Vec<SensorSpec>>) -> (r: Vec<String>)
    ensures
        texts(r@) == named_slots(all_specs(spec_lists(fans@))),
{
    let ghost lists = spec_lists(fans@);
    let mut slots: Vec<String> = Vec::new();
    let mut f: usize = 0;
    assert(lists.take(0) =~= Seq::<Seq<SensorSpecView>>::empty());
    assert(texts(slots@) =~= Seq::<Seq<char>>::empty());
    while f < fans.len()
        invariant
            f <= fans.len(),
            lists == spec_lists(fans@),
            texts(slots@) == named_slots(all_specs(lists.take(f as int))),
        decreases fans.len() - f,
    {
        let specs: &Vec<SensorSpec> = &fans[f];
        let ghost before = all_specs(lists.take(f as int));
        let ghost views = sensor_views(specs@);
        let mut i: usize = 0;
        assert(before + views.take(0) =~= before);
        while i < specs.len()
            invariant
                i <= specs.len(),
                views == sensor_views(specs@),
                texts(slots@) == named_slots(before + views.take(i as int)),
            decreases specs.len() - i,
        {
            let ghost grown = before + views.take(i + 1);
            assert(grown.drop_last() =~= before + views.take(i as int));
            assert(grown.last() == specs@[i as int]@);
            if let SensorSpec::Slot(n) = &specs[i] {
                match find_text(&slots, n.as_str()) {
                    Some(k) => {
                        assert(texts(slots@)[k as int] == n@);
                    },
                    None => {
                        let ghost slots_before = texts(slots@);
                        slots.push(n.clone());
                        assert(texts(slots@) =~= slots_before.push(n@));
                    },
                }
            }
            i = i + 1;
        }
        assert(views.take(i as int) =~= views);
        assert(lists.take(f + 1).drop_last() =~= lists.take(f as int));
        f = f + 1;
    }
    assert(lists.take(f as int) =~= lists);
    slots
}

/// One temperature that drives a fan: the CPU's, or the one in a file.
pub enum Source {
    Cpu,
    File(Seq<char>),
}

/// The temperature files of a slot; `None` where there is no GPU in the slot.
pub open spec fn files_of_slot(table: Seq<SlotSensors>, slot: Seq<char>) -> Option<Seq<Seq<char>>>
    decreases table.len(),
{
    if table.len() == 0 {
        None
    } else if table[0].slot@ == slot {
        if table[0].temp_inputs.len() > 0 {
            Some(texts(table[0].temp_inputs@))
        } else {
            None
        }
    } else {
        files_of_slot(table.drop_first(), slot)
    }
}

/// Whether there is anything that the entry stands for.
pub open spec fn resolved(table: Seq<SlotSensors>, spec: SensorSpecView) -> bool {
    match spec {
        SensorSpecView::Cpu => true,
        SensorSpecView::Slot(n) => files_of_slot(table, n) is Some,
    }
}

/// The temperatures that one entry stands for.
pub open spec fn sources_of(table: Seq<SlotSensors>, spec: SensorSpecView) -> Seq<Source> {
    match spec {
        SensorSpecView::Cpu => seq![Source::Cpu],
        SensorSpecView::Slot(n) => match files_of_slot(table, n) {
            Some(files) => Seq::new(files.len(), |i: int| Source::File(files[i])),
            None => Seq::empty(),
        },
    }
}

/// The temperatures that several entries stand for.
pub open spec fn sources(table: Seq<SlotSensors>, specs: Seq<SensorSpecView>) -> Seq<Source>
    decreases specs.len(),
{
    if specs.len() == 0 {
        Seq::empty()
    } else {
        sources(table, specs.drop_last()) + sources_of(table, specs.last())
    }
}

/// The first entry that stands for nothing.
pub open spec fn first_unresolved(
    table: Seq<SlotSensors>,
    specs: Seq<SensorSpecView>,
) -> Option<nat>
    decreases specs.len(),
{
    if specs.len() == 0 {
        None
    } else {
        match first_unresolved(table, specs.drop_last()) {
            Some(m) => Some(m),
            None => if resolved(table, specs.last()) {
                None
            } else {
                Some((specs.len() - 1) as nat)
            },
        }
    }
}

/// The files among the temperatures, each once, in the order in which they first come.
pub open spec fn files(list: Seq<Source>) -> Seq<Seq<char>>
    decreases list.len(),
{
    if list.len() == 0 {
        Seq::empty()
    } else {
        let before = files(list.drop_last());
        match list.last() {
            Source::File(path) if !before.contains(path) => before.push(path),
            _ => before,
        }
    }
}

/// Whether an index leads to the temperature, where the files are read in this order.
pub open spec fn leads_to(idx: SensorIdx, source: Source, opened: Seq<Seq<char>>) -> bool {
    match source {
        Source::Cpu => idx == SensorIdx::Cpu,
        Source::File(path) => {
            &&& idx matches SensorIdx::Hwmon(i)
            &&& i < opened.len()
            &&& opened[i as int] == path
        },
    }
}

/// Whether a fan's indices lead to its temperatures, one to each.
pub open spec fn list_leads_to(
    idxs: Seq<SensorIdx>,
    list: Seq<Source>,
    opened: Seq<Seq<char>>,
) -> bool {
    &&& idxs.len() == list.len()
    &&& forall|j: int| 0 <= j < idxs.len() ==> leads_to(#[trigger] idxs[j], list[j], opened)
}

/// The sensors to open, and where each fan finds its temperatures.
#[derive(Debug)]
pub struct SensorSetup {
    /// Some fan is driven by the CPU.
    pub cpu: bool,
    /// The temperature files to open, in this order.
    pub hwmons: Vec<String>,
    /// The indices of each fan; or the fault that comes up once the files are open.
    pub fans: Result<Vec<Vec<SensorIdx>>, Error>,
}

/// Files that are open stay where they are.
proof fn lemma_files_grow(list: Seq<Source>, more: Seq<Source>)
    ensures
        files(list).len() <= files(list + more).len(),
        files(list + more).take(files(list).len() as int) == files(list),
    decreases more.len(),
{
    if more.len() == 0 {
        assert(list + more =~= list);
        assert(files(list).take(files(list).len() as int) =~= files(list));
    } else {
        lemma_files_grow(list, more.drop_last());
        assert((list + more).drop_last() =~= list + more.drop_last());
        let n = files(list).len() as int;
        assert(files(list + more).take(n) =~= files(list + more.drop_last()).take(n));
    }
}

/// No file is opened twice.
pub proof fn files_are_distinct(list: Seq<Source>)
    ensures
        files(list).no_duplicates(),
    decreases list.len(),
{
    if list.len() > 0 {
        files_are_distinct(list.drop_last());
    }
}

/// An index leads to the same temperature when more files are open.
proof fn lemma_leads_to_stays(
    idxs: Seq<SensorIdx>,
    list: Seq<Source>,
    opened: Seq<Seq<char>>,
    more: Seq<Seq<char>>,
)
    requires
        list_leads_to(idxs, list, opened),
        opened.len() <= more.len(),
        more.take(opened.len() as int) == opened,
    ensures
        list_leads_to(idxs, list, more),
{
    assert forall|j: int| 0 <= j < idxs.len() implies leads_to(
        #[trigger] idxs[j],
        list[j],
        more,
    ) by {
        assert(leads_to(idxs[j], list[j], opened));
        if let SensorIdx::Hwmon(i) = idxs[j] {
            if list[j] is File {
                assert(more.take(opened.len() as int)[i as int] == more[i as int]);
            }
        }
    }
}

/// Where a file is, among those that are open; it is opened where it is not.
fn open_file(hwmons: &mut Vec<String>, path: &str) -> (i: usize)
    ensures
        i < final(hwmons).len(),
        final(hwmons)@[i as int]@ == path@,
        texts(final(hwmons)@) == (if texts(old(hwmons)@).contains(path@) {
            texts(old(hwmons)@)
        } else {
            texts(old(hwmons)@).push(path@)
        }),
{
    match find_text(hwmons, path) {
        Some(i) => {
            assert(texts(hwmons@)[i as int] == path@);
            i
        },
        None => {
            let i: usize = hwmons.len();
            hwmons.push(path.to_owned());
            assert(texts(hwmons@) =~= texts(old(hwmons)@).push(path@));
            i
        },
    }
}

/// The GPUs of a slot in the table.
fn find_slot<'a>(table: &'a Vec<SlotSensors>, slot: &str) -> (r: Option<&'a Vec<String>>)
    ensures
        match r {
            Some(paths) => files_of_slot(table@, slot@) == Some(texts(paths@)),
            None => files_of_slot(table@, slot@) is None,
        },
{
    let mut i: usize = 0;
    assert(table@.skip(0) =~= table@);
    while i < table.len()
        invariant
            i <= table.len(),
            files_of_slot(table@, slot@) == files_of_slot(table@.skip(i as int), slot@),
        decreases table.len() - i,
    {
        assert(table@.skip(i as int)[0] == table@[i as int]);
        if same_text(table[i].slot.as_str(), slot) {
            if table[i].temp_inputs.len() > 0 {
                return Some(&table[i].temp_inputs);
            }
            return None;
        }
        assert(table@.skip(i as int).drop_first() =~= table@.skip(i + 1));
        i = i + 1;
    }
    None
}

/// Opens the files of a slot, and adds their indices to those of a fan.
fn add_files(
    hwmons: &mut Vec<String>,
    idxs: &mut Vec<SensorIdx>,
    paths: &Vec<String>,
    Ghost(before): Ghost<Seq<Source>>,
    Ghost(own): Ghost<Seq<Source>>,
)
    requires
        texts(old(hwmons)@) == files(before),
        list_leads_to(old(idxs)@, own, files(before)),
    ensures
        ({
            let added = Seq::new(paths@.len(), |i: int| Source::File(paths@[i]@));
            &&& texts(final(hwmons)@) == files(before + added)
            &&& list_leads_to(final(idxs)@, own + added, files(before + added))
        }),
{
    let ghost added = Seq::new(paths@.len(), |i: int| Source::File(paths@[i]@));
    let mut i: usize = 0;
    assert(before + added.take(0) =~= before);
    assert(own + added.take(0) =~= own);
    while i < paths.len()
        invariant
            i <= paths.len(),
            added == Seq::new(paths@.len(), |i: int| Source::File(paths@[i]@)),
            texts(hwmons@) == files(before + added.take(i as int)),
            list_leads_to(
                idxs@,
                own + added.take(i as int),
                files(before + added.take(i as int)),
            ),
        decreases paths.len() - i,
    {
        let ghost seen = before + added.take(i as int);
        let ghost now = before + added.take(i + 1);
        let ghost idxs_before = idxs@;
        let path: &str = paths[i].as_str();
        let at: usize = open_file(hwmons, path);
        assert(now.drop_last() =~= seen);
        assert(now.last() == Source::File(path@));
        assert(texts(hwmons@) == files(now));
        idxs.push(SensorIdx::Hwmon(at));
        proof {
            lemma_files_grow(seen, seq![Source::File(path@)]);
            assert(seen + seq![Source::File(path@)] =~= now);
            lemma_leads_to_stays(
                idxs_before,
                own + added.take(i as int),
                files(seen),
                files(now),
            );
            let list = own + added.take(i + 1);
            assert forall|j: int| 0 <= j < idxs@.len() implies leads_to(
                #[trigger] idxs@[j],
                list[j],
                files(now),
            ) by {
                if j < idxs_before.len() {
                    assert(leads_to(idxs_before[j], (own + added.take(i as int))[j], files(now)));
                } else {
                    assert(texts(hwmons@)[at as int] == path@);
                }
            }
        }
        i = i + 1;
    }
    assert(added.take(i as int) =~= added);
}

/// An entry that stands for nothing is the first such, whatever follows.
proof fn lemma_unresolved_stays(table: Seq<SlotSensors>, specs: Seq<SensorSpecView>, k: int)
    requires
        0 <= k <= specs.len(),
        first_unresolved(table, specs.take(k)) is Some,
    ensures
        first_unresolved(table, specs) == first_unresolved(table, specs.take(k)),
    decreases specs.len() - k,
{
    if k == specs.len() {
        assert(specs.take(k) =~= specs);
    } else {
        assert(specs.take(k + 1).drop_last() =~= specs.take(k));
        lemma_unresolved_stays(table, specs, k + 1);
    }
}

/// The entries of the first lists are the first entries.
proof fn lemma_specs_prefix(fans: Seq<Seq<SensorSpecView>>, f: int)
    requires
        0 <= f <= fans.len(),
    ensures
        all_specs(fans.take(f)).len() <= all_specs(fans).len(),
        all_specs(fans).take(all_specs(fans.take(f)).len() as int) == all_specs(fans.take(f)),
    decreases fans.len() - f,
{
    if f == fans.len() {
        assert(fans.take(f) =~= fans);
        assert(all_specs(fans).take(all_specs(fans).len() as int) =~= all_specs(fans));
    } else {
        lemma_specs_prefix(fans, f + 1);
        assert(fans.take(f + 1).drop_last() =~= fans.take(f));
        let n = all_specs(fans.take(f)).len() as int;
        let next = all_specs(fans.take(f + 1));
        assert(next.take(n) =~= all_specs(fans.take(f)));
        assert(all_specs(fans).take(next.len() as int).take(n) =~= all_specs(fans).take(n));
    }
}

/// Whether any entry stands for the CPU.
fn needs_cpu(fans: &Vec<Vec<SensorSpec>>) -> (r: bool)
    ensures
        r == all_specs(spec_lists(fans@)).contains(SensorSpecView::Cpu),
{
    let ghost lists = spec_lists(fans@);
    let mut f: usize = 0;
    assert(lists.take(0) =~= Seq::<Seq<SensorSpecView>>::empty());
    while f < fans.len()
        invariant
            f <= fans.len(),
            lists == spec_lists(fans@),
            !all_specs(lists.take(f as int)).contains(SensorSpecView::Cpu),
        decreases fans.len() - f,
    {
        let specs: &Vec<SensorSpec> = &fans[f];
        let ghost before = all_specs(lists.take(f as int));
        let ghost grown = all_specs(lists.take(f + 1));
        assert(lists.take(f + 1).drop_last() =~= lists.take(f as int));
        let mut i: usize = 0;
        while i < specs.len()
            invariant
                i <= specs.len(),
                f < fans.len(),
                lists == spec_lists(fans@),
                grown == all_specs(lists.take(f + 1)),
                grown == before + sensor_views(specs@),
                forall|j: int| 0 <= j < i ==> (#[trigger] specs@[j])@ != SensorSpecView::Cpu,
            decreases specs.len() - i,
        {
            if let SensorSpec::Cpu = &specs[i] {
                proof {
                    lemma_specs_prefix(lists, f + 1);
                    let at = before.len() + i;
                    assert(grown[at] == SensorSpecView::Cpu);
                    assert(all_specs(lists)[at] == grown[at]);
                }
                return true;
            }
            i = i + 1;
        }
        assert forall|j: int| 0 <= j < grown.len() implies grown[j] != SensorSpecView::Cpu by {
            if j < before.len() {
                assert(before[j] == grown[j]);
            } else {
                assert(specs@[j - before.len()]@ == grown[j]);
            }
        }
        f = f + 1;
    }
    assert(lists.take(f as int) =~= lists);
    false
}

/// Whether the indices of each fan lead to its temperatures.
pub open spec fn fans_lead_to(
    fans: Seq<Vec<SensorIdx>>,
    table: Seq<SlotSensors>,
    lists: Seq<Seq<SensorSpecView>>,
    opened: Seq<Seq<char>>,
) -> bool {
    &&& fans.len() == lists.len()
    &&& forall|f: int| #![trigger fans[f]]
        0 <= f < fans.len() ==> list_leads_to(fans[f]@, sources(table, lists[f]), opened)
}

/// Indices lead to the same temperatures when more files are open.
proof fn lemma_fans_lead_to_stays(
    fans: Seq<Vec<SensorIdx>>,
    table: Seq<SlotSensors>,
    lists: Seq<Seq<SensorSpecView>>,
    opened: Seq<Seq<char>>,
    more: Seq<Seq<char>>,
)
    requires
        fans_lead_to(fans, table, lists, opened),
        opened.len() <= more.len(),
        more.take(opened.len() as int) == opened,
    ensures
        fans_lead_to(fans, table, lists, more),
{
    assert forall|f: int| #![trigger fans[f]] 0 <= f < fans.len() implies list_leads_to(
        fans[f]@,
        sources(table, lists[f]),
        more,
    ) by {
        lemma_leads_to_stays(fans[f]@, sources(table, lists[f]), opened, more);
    }
}

/// One entry more: what it stands for comes last.
proof fn lemma_sources_push(
    table: Seq<SlotSensors>,
    specs: Seq<SensorSpecView>,
    spec: SensorSpecView,
)
    ensures
        sources(table, specs.push(spec)) == sources(table, specs) + sources_of(table, spec),
{
    assert(specs.push(spec).drop_last() =~= specs);
}

/// Which sensors to open, and where each fan finds its temperatures. Each file is opened once, and
/// fans that look at the same file have the same index for it. A slot without a GPU is a fault; the
/// files that come before it are opened all the same.
pub fn build_sensor_setup(fans: &Vec<Vec<SensorSpec>>, table: &Vec<SlotSensors>) -> (r: SensorSetup)
    ensures
        r.cpu == all_specs(spec_lists(fans@)).contains(SensorSpecView::Cpu),
        ({
            let lists = spec_lists(fans@);
            let all = all_specs(lists);
            match first_unresolved(table@, all) {
                None => {
                    &&& texts(r.hwmons@) == files(sources(table@, all))
                    &&& r.fans is Ok
                    &&& fans_lead_to(r.fans->Ok_0@, table@, lists, texts(r.hwmons@))
                },
                Some(m) => {
                    &&& texts(r.hwmons@) == files(sources(table@, all.take(m as int)))
                    &&& r.fans matches Err(Error::SensorNotFound(s)) && s@ == sensor_text(
                        all[m as int],
                    )
                },
            }
        }),
{
    let ghost lists = spec_lists(fans@);
    let ghost all = all_specs(lists);
    let cpu: bool = needs_cpu(fans);
    let mut hwmons: Vec<String> = Vec::new();
    let mut done: Vec<Vec<SensorIdx>> = Vec::new();
    let mut f: usize = 0;
    proof {
        assert(lists.take(0) =~= Seq::<Seq<SensorSpecView>>::empty());
        assert(texts(hwmons@) =~= Seq::<Seq<char>>::empty());
    }
    while f < fans.len()
        invariant
            f <= fans.len(),
            cpu == all.contains(SensorSpecView::Cpu),
            lists == spec_lists(fans@),
            all == all_specs(lists),
            first_unresolved(table@, all_specs(lists.take(f as int))) is None,
            texts(hwmons@) == files(sources(table@, all_specs(lists.take(f as int)))),
            fans_lead_to(done@, table@, lists.take(f as int), texts(hwmons@)),
        decreases fans.len() - f,
    {
        let specs: &Vec<SensorSpec> = &fans[f];
        let ghost before = all_specs(lists.take(f as int));
        let ghost views = sensor_views(specs@);
        let mut idxs: Vec<SensorIdx> = Vec::new();
        let mut i: usize = 0;
        proof {
            assert(before + views.take(0) =~= before);
            assert(views.take(0) =~= Seq::<SensorSpecView>::empty());
            lemma_specs_prefix(lists, f + 1);
            assert(lists.take(f + 1).drop_last() =~= lists.take(f as int));
            assert(all_specs(lists.take(f + 1)) == before + views);
        }
        while i < specs.len()
            invariant
                i <= specs.len(),
                f < fans.len(),
                cpu == all.contains(SensorSpecView::Cpu),
                lists == spec_lists(fans@),
                all == all_specs(lists),
                views == sensor_views(specs@),
                all.len() >= (before + views).len(),
                all.take((before + views).len() as int) == before + views,
                first_unresolved(table@, before + views.take(i as int)) is None,
                texts(hwmons@) == files(sources(table@, before + views.take(i as int))),
                list_leads_to(idxs@, sources(table@, views.take(i as int)), texts(hwmons@)),
                fans_lead_to(done@, table@, lists.take(f as int), texts(hwmons@)),
            decreases specs.len() - i,
        {
            let ghost seen = before + views.take(i as int);
            let ghost own = views.take(i as int);
            let ghost spec = views[i as int];
            let ghost opened = texts(hwmons@);
            let ghost found = sources(table@, seen);
            let ghost idxs_before = idxs@;
            proof {
                assert(before + views.take(i + 1) =~= seen.push(spec));
                assert(views.take(i + 1) =~= own.push(spec));
                assert(seen.push(spec).drop_last() =~= seen);
                lemma_sources_push(table@, seen, spec);
                lemma_sources_push(table@, own, spec);
                lemma_files_grow(found, sources_of(table@, spec));
            }
            match &specs[i] {
                SensorSpec::Cpu => {
                    idxs.push(SensorIdx::Cpu);
                    proof {
                        assert((found + seq![Source::Cpu]).drop_last() =~= found);
                        let list = sources(table@, own.push(spec));
                        assert forall|j: int| 0 <= j < idxs@.len() implies leads_to(
                            #[trigger] idxs@[j],
                            list[j],
                            opened,
                        ) by {
                            if j < idxs_before.len() {
                                assert(leads_to(idxs_before[j], sources(table@, own)[j], opened));
                            }
                        }
                    }
                },
                SensorSpec::Slot(n) => {
                    match find_slot(table, n.as_str()) {
                        None => {
                            proof {
                                assert(all.take(seen.len() as int + 1) =~= seen.push(spec)) by {
                                    let both = before + views;
                                    assert(all.take(both.len() as int).take(seen.len() as int + 1)
                                        =~= all.take(seen.len() as int + 1));
                                    assert(both.take(seen.len() as int + 1) =~= seen.push(spec));
                                }
                                lemma_unresolved_stays(table@, all, seen.len() as int + 1);
                                assert(all.take(seen.len() as int) =~= seen.push(spec).drop_last());
                                assert(all[seen.len() as int] == seen.push(spec).last());
                            }
                            return SensorSetup {
                                cpu,
                                hwmons,
                                fans: Err(Error::SensorNotFound(concat("slot:", n.as_str()))),
                            };
                        },
                        Some(paths) => {
                            add_files(
                                &mut hwmons,
                                &mut idxs,
                                paths,
                                Ghost(found),
                                Ghost(sources(table@, own)),
                            );
                            proof {
                                assert(Seq::new(paths@.len(), |i: int| Source::File(paths@[i]@))
                                    =~= sources_of(table@, spec));
                                lemma_fans_lead_to_stays(
                                    done@,
                                    table@,
                                    lists.take(f as int),
                                    opened,
                                    texts(hwmons@),
                                );
                            }
                        },
                    }
                },
            }
            i = i + 1;
        }
        let ghost done_before = done@;
        done.push(idxs);
        proof {
            assert(views.take(i as int) =~= views);
            let now = lists.take(f + 1);
            assert forall|g: int| #![trigger done@[g]] 0 <= g < done@.len() implies list_leads_to(
                done@[g]@,
                sources(table@, now[g]),
                texts(hwmons@),
            ) by {
                if g < done_before.len() {
                    assert(list_leads_to(
                        done_before[g]@,
                        sources(table@, lists.take(f as int)[g]),
                        texts(hwmons@),
                    ));
                }
            }
        }
        f = f + 1;
    }
    assert(lists.take(f as int) =~= lists);
    SensorSetup { cpu, hwmons, fans: Ok(done) }
}

impl SensorSetup {
    /// The pool of the sensors that are open by now, and the indices of each fan; or the fault that
    /// was put off.
    pub fn into_pool(self) -> (r: Result<(SensorPool, Vec<Vec<SensorIdx>>), Error>)
        ensures
            match self.fans {
                Ok(fans) => {
                    &&& r is Ok
                    &&& r->Ok_0.0.well_formed()
                    &&& r->Ok_0.0.cpu == self.cpu
                    &&& r->Ok_0.0.hwmons == self.hwmons
                    &&& r->Ok_0.0.nvidia is None
                    &&& r->Ok_0.1 == fans
                },
                Err(e) => r == Err::<(SensorPool, Vec<Vec<SensorIdx>>), Error>(e),
            },
    {
        match self.fans {
            Ok(fans) => Ok((SensorPool { cpu: self.cpu, hwmons: self.hwmons, nvidia: None }, fans)),
            Err(e) => Err(e),
        }
    }
}

/// The CPU's temperature comes only from an entry for the CPU.
proof fn lemma_cpu_source(table: Seq<SlotSensors>, specs: Seq<SensorSpecView>)
    requires
        sources(table, specs).contains(Source::Cpu),
    ensures
        specs.contains(SensorSpecView::Cpu),
    decreases specs.len(),
{
    if specs.len() > 0 {
        let before = sources(table, specs.drop_last());
        let list = sources(table, specs);
        let j = choose|j: int| 0 <= j < list.len() && list[j] == Source::Cpu;
        if j < before.len() {
            assert(before[j] == Source::Cpu);
            lemma_cpu_source(table, specs.drop_last());
            let k = choose|k: int|
                0 <= k < specs.drop_last().len() && specs.drop_last()[k] == SensorSpecView::Cpu;
            assert(specs[k] == SensorSpecView::Cpu);
        } else {
            assert(sources_of(table, specs.last())[j - before.len()] == Source::Cpu);
            assert(specs[specs.len() - 1] == SensorSpecView::Cpu);
        }
    }
}

/// The entries of each fan are among the entries of all fans.
proof fn lemma_specs_of_fan(lists: Seq<Seq<SensorSpecView>>, f: int, spec: SensorSpecView)
    requires
        0 <= f < lists.len(),
        lists[f].contains(spec),
    ensures
        all_specs(lists).contains(spec),
    decreases lists.len(),
{
    let before = all_specs(lists.drop_last());
    let all = all_specs(lists);
    if f < lists.len() - 1 {
        lemma_specs_of_fan(lists.drop_last(), f, spec);
        let k = choose|k: int| 0 <= k < before.len() && before[k] == spec;
        assert(all[k] == spec);
    } else {
        let k = choose|k: int| 0 <= k < lists.last().len() && lists.last()[k] == spec;
        assert(all[before.len() + k] == spec);
    }
}

/// Once every sensor of the pool is read, each fan finds all of its temperatures.
pub proof fn readings_are_complete(
    fans: Seq<Vec<SensorIdx>>,
    table: Seq<SlotSensors>,
    lists: Seq<Seq<SensorSpecView>>,
    pool: SensorPool,
    readings: SensorReadings,
)
    requires
        fans_lead_to(fans, table, lists, texts(pool.hwmons@)),
        pool.cpu == all_specs(lists).contains(SensorSpecView::Cpu),
        pool.is_read_by(readings),
    ensures
        forall|f: int, j: int| #![trigger fans[f]@[j]]
            0 <= f < fans.len() && 0 <= j < fans[f]@.len() ==> has_reading(readings, fans[f]@[j]),
{
    assert forall|f: int, j: int| #![trigger fans[f]@[j]]
        0 <= f < fans.len() && 0 <= j < fans[f]@.len() implies has_reading(
        readings,
        fans[f]@[j],
    ) by {
        let list = sources(table, lists[f]);
        let opened = texts(pool.hwmons@);
        assert(list_leads_to(fans[f]@, list, opened));
        assert(leads_to(fans[f]@[j], list[j], opened));
        if list[j] == Source::Cpu {
            lemma_cpu_source(table, lists[f]);
            lemma_specs_of_fan(lists, f, SensorSpecView::Cpu);
        }
    }
}

/// Fans that look at the same file have the same index for it.
pub proof fn shared_file_has_one_index(
    list: Seq<Source>,
    path: Seq<char>,
    a: SensorIdx,
    b: SensorIdx,
)
    requires
        leads_to(a, Source::File(path), files(list)),
        leads_to(b, Source::File(path), files(list)),
    ensures
        a == b,
{
    files_are_distinct(list);
}

/// The slots to look up are those that some entry names, each of them once.
pub proof fn slots_are_named_once(specs: Seq<SensorSpecView>)
    ensures
        named_slots(specs).no_duplicates(),
        forall|n: Seq<char>| #![trigger named_slots(specs).contains(n)]
            named_slots(specs).contains(n) <==> specs.contains(SensorSpecView::Slot(n)),
    decreases specs.len(),
{
    if specs.len() > 0 {
        let rest = specs.drop_last();
        let before = named_slots(rest);
        let now = named_slots(specs);
        slots_are_named_once(rest);
        assert forall|n: Seq<char>| #![trigger now.contains(n)]
            now.contains(n) <==> specs.contains(SensorSpecView::Slot(n)) by {
            assert(before.contains(n) <==> rest.contains(SensorSpecView::Slot(n)));
            if now.contains(n) {
                let i = choose|i: int| 0 <= i < now.len() && now[i] == n;
                if i < before.len() {
                    assert(before[i] == n);
                    let j = choose|j: int|
                        0 <= j < rest.len() && rest[j] == SensorSpecView::Slot(n);
                    assert(specs[j] == SensorSpecView::Slot(n));
                } else {
                    assert(specs[specs.len() - 1] == SensorSpecView::Slot(n));
                }
            }
            if specs.contains(SensorSpecView::Slot(n)) {
                let j = choose|j: int| 0 <= j < specs.len() && specs[j] == SensorSpecView::Slot(n);
                if j < rest.len() {
                    assert(rest[j] == SensorSpecView::Slot(n));
                    let i = choose|i: int| 0 <= i < before.len() && before[i] == n;
                    assert(now[i] == n);
                } else if before.contains(n) {
                    let i = choose|i: int| 0 <= i < before.len() && before[i] == n;
                    assert(now[i] == n);
                } else {
                    assert(now[before.len() as int] == n);
                }
            }
        }
    }
}

/// What the readings say of one temperature that drives a fan, where the files are read in this
/// order.
pub open spec fn source_temp(
    source: Source,
    opened: Seq<Seq<char>>,
    readings: SensorReadings,
) -> u8 {
    match source {
        Source::Cpu => readings.cpu->0,
        Source::File(path) => readings.hwmons@[opened.index_of(path)],
    }
}

/// A fan's temperature is the highest of those that its entries stand for: none of them is higher,
/// and it is one of them, or zero.
pub proof fn fan_follows_its_hottest_source(
    idxs: Seq<SensorIdx>,
    list: Seq<Source>,
    all: Seq<Source>,
    readings: SensorReadings,
    temp: u8,
)
    requires
        list_leads_to(idxs, list, files(all)),
        is_highest(readings, idxs, temp),
    ensures
        forall|j: int|
            0 <= j < list.len() ==> source_temp(#[trigger] list[j], files(all), readings) <= temp,
        temp == 0 || exists|j: int|
            0 <= j < list.len() && source_temp(#[trigger] list[j], files(all), readings) == temp,
{
    let opened = files(all);
    files_are_distinct(all);
    assert forall|j: int| 0 <= j < list.len() implies source_temp(
        #[trigger] list[j],
        opened,
        readings,
    ) == reading(readings, idxs[j]) by {
        assert(leads_to(idxs[j], list[j], opened));
        if let Source::File(path) = list[j] {
            if let SensorIdx::Hwmon(i) = idxs[j] {
                assert(opened[i as int] == path);
                let k = opened.index_of(path);
                assert(0 <= k < opened.len() && opened[k] == path);
            }
        }
    }
    if temp != 0 {
        let j = choose|j: int|
            0 <= j < idxs.len() && reading(readings, #[trigger] idxs[j]) == temp;
        assert(source_temp(list[j], opened, readings) == temp);
    }
}

/// The entries of all fans are those of each fan in turn: no entry is lost, added or moved.
pub proof fn entries_of_all_fans_are_those_of_each(fans: Seq<Seq<SensorSpecView>>)
    ensures
        all_specs(fans) == fans.flatten(),
    decreases fans.len(),
{
    if fans.len() > 0 {
        entries_of_all_fans_are_those_of_each(fans.drop_last());
        fans.drop_last().lemma_flatten_and_flatten_alt_are_equivalent();
        fans.lemma_flatten_and_flatten_alt_are_equivalent();
    }
}

/// What a list of fans is driven by is what each of them is driven by.
pub proof fn each_fan_is_driven_by_its_own_entries(fans: Seq<Vec<SensorSpec>>, f: int, i: int)
    requires
        0 <= f < fans.len(),
        0 <= i < fans[f]@.len(),
    ensures
        spec_lists(fans).len() == fans.len(),
        spec_lists(fans)[f].len() == fans[f]@.len(),
        fans[f]@[i] is Cpu ==> spec_lists(fans)[f][i] == SensorSpecView::Cpu,
        fans[f]@[i] matches SensorSpec::Slot(n) ==> spec_lists(fans)[f][i] == SensorSpecView::Slot(
            n@,
        ),
{
}

/// The files of a slot are those of its first entry in the table, all of them; a slot that is not
/// there, or is there without a GPU, has none.
pub proof fn slot_has_the_files_of_its_entry(table: Seq<SlotSensors>, slot: Seq<char>, k: int)
    requires
        0 <= k < table.len(),
        table[k].slot@ == slot,
        forall|j: int| 0 <= j < k ==> (#[trigger] table[j]).slot@ != slot,
    ensures
        table[k].temp_inputs@.len() > 0 ==> files_of_slot(table, slot) == Some(
            Seq::new(table[k].temp_inputs@.len(), |i: int| table[k].temp_inputs@[i]@),
        ),
        table[k].temp_inputs@.len() == 0 ==> files_of_slot(table, slot) is None,
    decreases k,
{
    if k > 0 {
        let rest = table.drop_first();
        assert(table[0].slot@ != slot);
        assert forall|j: int| 0 <= j < k - 1 implies (#[trigger] rest[j]).slot@ != slot by {
            assert(rest[j] == table[j + 1]);
        }
        assert(rest[k - 1] == table[k]);
        slot_has_the_files_of_its_entry(rest, slot, k - 1);
    } else if table[0].temp_inputs@.len() > 0 {
        assert(texts(table[0].temp_inputs@) =~= Seq::new(
            table[0].temp_inputs@.len(),
            |i: int| table[0].temp_inputs@[i]@,
        ));
    }
}

/// A slot that is not in the table has no files.
pub proof fn unknown_slot_has_no_files(table: Seq<SlotSensors>, slot: Seq<char>)
    requires
        forall|j: int| 0 <= j < table.len() ==> (#[trigger] table[j]).slot@ != slot,
    ensures
        files_of_slot(table, slot) is None,
        !resolved(table, SensorSpecView::Slot(slot)),
        resolved(table, SensorSpecView::Cpu),
    decreases table.len(),
{
    if table.len() > 0 {
        let rest = table.drop_first();
        assert(table[0].slot@ != slot);
        assert forall|j: int| 0 <= j < rest.len() implies (#[trigger] rest[j]).slot@ != slot by {
            assert(rest[j] == table[j + 1]);
        }
        unknown_slot_has_no_files(rest, slot);
    }
}

/// What drives a fan is the CPU where an entry says so, and every file of every slot that an entry
/// names; nothing else does.
pub proof fn fan_is_driven_by_all_of_its_entries(
    table: Seq<SlotSensors>,
    specs: Seq<SensorSpecView>,
)
    ensures
        sources(table, specs).contains(Source::Cpu) <==> specs.contains(SensorSpecView::Cpu),
        forall|path: Seq<char>| #![trigger sources(table, specs).contains(Source::File(path))]
            sources(table, specs).contains(Source::File(path)) <==> exists|i: int|
                #![trigger specs[i]]
                0 <= i < specs.len() && specs[i] is Slot && (files_of_slot(
                    table,
                    specs[i]->0,
                ) matches Some(paths) && paths.contains(path)),
    decreases specs.len(),
{
    if specs.len() == 0 {
        assert(sources(table, specs) =~= Seq::<Source>::empty());
    } else {
        let rest = specs.drop_last();
        let last = specs.last();
        let before = sources(table, rest);
        let own = sources_of(table, last);
        let now = sources(table, specs);
        fan_is_driven_by_all_of_its_entries(table, rest);
        assert forall|x: Source| #![trigger now.contains(x)]
            now.contains(x) <==> before.contains(x) || own.contains(x) by {
            if now.contains(x) {
                let i = choose|i: int| 0 <= i < now.len() && now[i] == x;
                if i < before.len() {
                    assert(before[i] == x);
                } else {
                    assert(own[i - before.len()] == x);
                }
            }
            if before.contains(x) {
                let i = choose|i: int| 0 <= i < before.len() && before[i] == x;
                assert(now[i] == x);
            }
            if own.contains(x) {
                let i = choose|i: int| 0 <= i < own.len() && own[i] == x;
                assert(now[before.len() + i] == x);
            }
        }
        assert(own.contains(Source::Cpu) <==> last == SensorSpecView::Cpu) by {
            if last == SensorSpecView::Cpu {
                assert(own[0] == Source::Cpu);
            }
        }
        if specs.contains(SensorSpecView::Cpu) {
            let i = choose|i: int| 0 <= i < specs.len() && specs[i] == SensorSpecView::Cpu;
            if i < rest.len() {
                assert(rest[i] == SensorSpecView::Cpu);
            }
        }
        if rest.contains(SensorSpecView::Cpu) {
            let i = choose|i: int| 0 <= i < rest.len() && rest[i] == SensorSpecView::Cpu;
            assert(specs[i] == SensorSpecView::Cpu);
        }
        if last == SensorSpecView::Cpu {
            assert(specs[specs.len() - 1] == SensorSpecView::Cpu);
        }
        assert forall|path: Seq<char>| #![trigger now.contains(Source::File(path))]
            now.contains(Source::File(path)) <==> exists|i: int| #![trigger specs[i]]
                0 <= i < specs.len() && specs[i] is Slot && (files_of_slot(
                    table,
                    specs[i]->0,
                ) matches Some(paths) && paths.contains(path)) by {
            let x = Source::File(path);
            assert(before.contains(x) == before.contains(Source::File(path)));
            let mine = last is Slot && (files_of_slot(table, last->0) matches Some(paths)
                && paths.contains(path));
            if own.contains(x) {
                let i = choose|i: int| 0 <= i < own.len() && own[i] == x;
                let paths = files_of_slot(table, last->0)->0;
                assert(paths[i] == path);
                assert(mine);
            }
            if mine {
                let paths = files_of_slot(table, last->0)->0;
                let i = choose|i: int| 0 <= i < paths.len() && paths[i] == path;
                assert(own[i] == x);
                assert(specs[specs.len() - 1] == last);
            }
            if before.contains(x) {
                let i = choose|i: int| #![trigger rest[i]]
                    0 <= i < rest.len() && rest[i] is Slot && (files_of_slot(
                        table,
                        rest[i]->0,
                    ) matches Some(paths) && paths.contains(path));
                assert(specs[i] == rest[i]);
            }
            if exists|i: int| #![trigger specs[i]]
                0 <= i < specs.len() && specs[i] is Slot && (files_of_slot(
                    table,
                    specs[i]->0,
                ) matches Some(paths) && paths.contains(path)) {
                let i = choose|i: int| #![trigger specs[i]]
                    0 <= i < specs.len() && specs[i] is Slot && (files_of_slot(
                        table,
                        specs[i]->0,
                    ) matches Some(paths) && paths.contains(path));
                if i < rest.len() {
                    assert(rest[i] == specs[i]);
                } else {
                    assert(mine);
                }
            }
        }
    }
}

/// The entry that stands for nothing is the first one of its kind, and there is none where every
/// entry stands for something.
pub proof fn first_entry_for_nothing_is_named(
    table: Seq<SlotSensors>,
    specs: Seq<SensorSpecView>,
)
    ensures
        first_unresolved(table, specs) matches Some(m) ==> {
            &&& m < specs.len()
            &&& specs[m as int] matches SensorSpecView::Slot(n) && files_of_slot(table, n) is None
            &&& forall|i: int| #![trigger specs[i]]
                0 <= i < m ==> (specs[i] matches SensorSpecView::Slot(n) ==> files_of_slot(
                    table,
                    n,
                ) is Some)
        },
        first_unresolved(table, specs) is None ==> forall|i: int| #![trigger specs[i]]
            0 <= i < specs.len() ==> (specs[i] matches SensorSpecView::Slot(n) ==> files_of_slot(
                table,
                n,
            ) is Some),
    decreases specs.len(),
{
    if specs.len() > 0 {
        let rest = specs.drop_last();
        first_entry_for_nothing_is_named(table, rest);
        assert forall|i: int| #![trigger specs[i]]
            0 <= i < rest.len() && (first_unresolved(table, rest) matches Some(m) ==> i < m) implies (
        specs[i] matches SensorSpecView::Slot(n) ==> files_of_slot(table, n) is Some) by {
            assert(rest[i] == specs[i]);
        }
        if first_unresolved(table, rest) is Some {
            let m = first_unresolved(table, rest)->0;
            assert(rest[m as int] == specs[m as int]);
        }
    }
}

/// The files that are opened are those that drive some fan: every one of them, and no other.
pub proof fn every_file_that_drives_a_fan_is_opened(list: Seq<Source>, path: Seq<char>)
    ensures
        files(list).contains(path) <==> list.contains(Source::File(path)),
    decreases list.len(),
{
    if list.len() > 0 {
        let rest = list.drop_last();
        let before = files(rest);
        let now = files(list);
        every_file_that_drives_a_fan_is_opened(rest, path);
        if now.contains(path) {
            let i = choose|i: int| 0 <= i < now.len() && now[i] == path;
            if i < before.len() {
                assert(before[i] == path);
                let j = choose|j: int| 0 <= j < rest.len() && rest[j] == Source::File(path);
                assert(list[j] == Source::File(path));
            } else {
                assert(list[list.len() - 1] == Source::File(path));
            }
        }
        if list.contains(Source::File(path)) {
            let j = choose|j: int| 0 <= j < list.len() && list[j] == Source::File(path);
            if j < rest.len() {
                assert(rest[j] == Source::File(path));
            }
            if before.contains(path) {
                let i = choose|i: int| 0 <= i < before.len() && before[i] == path;
                assert(now[i] == path);
            } else {
                assert(now[now.len() - 1] == path);
            }
        }
    }
}

/// The indices of a fan lead to its temperatures, one to each and in their order: the CPU's to the
/// CPU, a file's to the place of that file among those that are open.
pub proof fn each_index_leads_to_its_temperature(
    idxs: Seq<SensorIdx>,
    list: Seq<Source>,
    opened: Seq<Seq<char>>,
    j: int,
)
    requires
        list_leads_to(idxs, list, opened),
        0 <= j < list.len(),
    ensures
        idxs.len() == list.len(),
        list[j] == Source::Cpu ==> idxs[j] == SensorIdx::Cpu,
        list[j] matches Source::File(path) ==> (idxs[j] matches SensorIdx::Hwmon(i) && i
            < opened.len() && opened[i as int] == path),
{
    assert(leads_to(idxs[j], list[j], opened));
}

/// The indices of each fan lead to the temperatures of that fan.
pub proof fn each_fan_has_its_own_indices(
    fans: Seq<Vec<SensorIdx>>,
    table: Seq<SlotSensors>,
    lists: Seq<Seq<SensorSpecView>>,
    opened: Seq<Seq<char>>,
    f: int,
)
    requires
        fans_lead_to(fans, table, lists, opened),
        0 <= f < lists.len(),
    ensures
        fans.len() == lists.len(),
        list_leads_to(fans[f]@, sources(table, lists[f]), opened),
{
    assert(fans[f] == fans[f]);
}

/// An entry for the CPU is driven by the CPU alone, an entry for a slot by each of the slot's files
/// in turn, and one for a slot without files by nothing.
pub proof fn entry_is_driven_by_what_it_names(
    table: Seq<SlotSensors>,
    slot: Seq<char>,
    i: int,
)
    ensures
        sources_of(table, SensorSpecView::Cpu) == seq![Source::Cpu],
        files_of_slot(table, slot) is None ==> sources_of(table, SensorSpecView::Slot(slot)).len()
            == 0,
        files_of_slot(table, slot) matches Some(files) ==> {
            &&& sources_of(table, SensorSpecView::Slot(slot)).len() == files.len()
            &&& 0 <= i < files.len() ==> sources_of(table, SensorSpecView::Slot(slot))[i]
                == Source::File(files[i])
        },
{
}

} // verus!
