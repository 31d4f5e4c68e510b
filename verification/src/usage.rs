//! Who references each name-map entry and each import slot: the counts the
//! Header view shows before anything in those tables is edited.

use vstd::prelude::*;

use crate::browser::views;
use crate::header::{
    reflected_block, ChimpDocument, ChimpExport, ChimpNameUsage, ExportBlock, FName, PropValue,
    PropertyBlock, PropertyEntry, has_site,
};
use crate::text::{chars_of, decimal, push_decimal, push_str, string_of};

verus! {

/// What the Header view reports about references into the package's tables.
pub struct ChimpHeaderUsage {
    /// Per name-map entry, parallel to the table.
    pub names: Vec<ChimpNameUsage>,
    /// Per import slot, how many object properties name it.
    pub import_references: Vec<usize>,
}

// ---------------------------------------------------------------------------
// What a decoded value refers to
// ---------------------------------------------------------------------------

/// The name-map entries of every name in `v`, in reading order: each
/// element of a container in turn, a map's key before its value, a
/// change-against-default's removals before what it wraps.
pub open spec fn value_names(v: PropValue) -> Seq<u32>
    decreases v, 1int,
{
    match v {
        PropValue::Name(n) => seq![n.index],
        PropValue::Array(xs) => seq_names(xs@),
        PropValue::SetItems(xs) => seq_names(xs@),
        PropValue::MapPairs(ps) => pair_names(ps@),
        PropValue::Struct(block) => entry_names(block.entries@),
        PropValue::WithRemovals { removals, inner, .. } => seq_names(removals@) + value_names(*inner),
        _ => Seq::empty(),
    }
}

pub open spec fn seq_names(xs: Seq<PropValue>) -> Seq<u32>
    decreases xs, 0int,
{
    if xs.len() == 0 {
        Seq::empty()
    } else {
        seq_names(xs.subrange(0, xs.len() - 1)) + value_names(xs[xs.len() - 1])
    }
}

pub open spec fn pair_names(ps: Seq<(PropValue, PropValue)>) -> Seq<u32>
    decreases ps, 0int,
{
    if ps.len() == 0 {
        Seq::empty()
    } else {
        pair_names(ps.subrange(0, ps.len() - 1)) + value_names(ps[ps.len() - 1].0) + value_names(
            ps[ps.len() - 1].1,
        )
    }
}

pub open spec fn entry_names(es: Seq<PropertyEntry>) -> Seq<u32>
    decreases es, 0int,
{
    if es.len() == 0 {
        Seq::empty()
    } else {
        entry_names(es.subrange(0, es.len() - 1)) + value_names(es[es.len() - 1].value)
    }
}

/// Every object reference (`FPackageIndex`) in `v`, in the same order.
pub open spec fn value_objects(v: PropValue) -> Seq<i32>
    decreases v, 1int,
{
    match v {
        PropValue::Object(index) => seq![index],
        PropValue::Array(xs) => seq_objects(xs@),
        PropValue::SetItems(xs) => seq_objects(xs@),
        PropValue::MapPairs(ps) => pair_objects(ps@),
        PropValue::Struct(block) => entry_objects(block.entries@),
        PropValue::WithRemovals { removals, inner, .. } => seq_objects(removals@) + value_objects(
            *inner,
        ),
        _ => Seq::empty(),
    }
}

pub open spec fn seq_objects(xs: Seq<PropValue>) -> Seq<i32>
    decreases xs, 0int,
{
    if xs.len() == 0 {
        Seq::empty()
    } else {
        seq_objects(xs.subrange(0, xs.len() - 1)) + value_objects(xs[xs.len() - 1])
    }
}

pub open spec fn pair_objects(ps: Seq<(PropValue, PropValue)>) -> Seq<i32>
    decreases ps, 0int,
{
    if ps.len() == 0 {
        Seq::empty()
    } else {
        pair_objects(ps.subrange(0, ps.len() - 1)) + value_objects(ps[ps.len() - 1].0)
            + value_objects(ps[ps.len() - 1].1)
    }
}

pub open spec fn entry_objects(es: Seq<PropertyEntry>) -> Seq<i32>
    decreases es, 0int,
{
    if es.len() == 0 {
        Seq::empty()
    } else {
        entry_objects(es.subrange(0, es.len() - 1)) + value_objects(es[es.len() - 1].value)
    }
}

fn collect_value_names(v: &PropValue, out: &mut Vec<u32>)
    ensures
        final(out)@ == old(out)@ + value_names(*v),
    decreases v, 1int,
{
    match v {
        PropValue::Name(n) => {
            out.push(n.index);
            assert(final(out)@ =~= old(out)@ + value_names(*v));
        },
        PropValue::Array(xs) => collect_seq_names(xs, out),
        PropValue::SetItems(xs) => collect_seq_names(xs, out),
        PropValue::MapPairs(ps) => collect_pair_names(ps, out),
        PropValue::Struct(block) => collect_entry_names(&block.entries, out),
        PropValue::WithRemovals { removals, inner, .. } => {
            collect_seq_names(removals, out);
            collect_value_names(&**inner, out);
            assert(final(out)@ =~= old(out)@ + value_names(*v));
        },
        _ => {
            assert(final(out)@ =~= old(out)@ + value_names(*v));
        },
    }
}

fn collect_seq_names(xs: &Vec<PropValue>, out: &mut Vec<u32>)
    ensures
        final(out)@ == old(out)@ + seq_names(xs@),
    decreases xs, 0int,
{
    let ghost start = out@;
    let mut i: usize = 0;
    assert(start + seq_names(xs@.subrange(0, 0)) =~= start);
    while i < xs.len()
        invariant
            i <= xs.len(),
            out@ == start + seq_names(xs@.subrange(0, i as int)),
        decreases xs.len() - i,
    {
        proof {
            let t = xs@.subrange(0, i + 1);
            assert(t.subrange(0, t.len() - 1) =~= xs@.subrange(0, i as int));
            assert(t[t.len() - 1] == xs@[i as int]);
        }
        collect_value_names(&xs[i], out);
        proof {
            assert(out@ =~= start + seq_names(xs@.subrange(0, i + 1)));
        }
        i += 1;
    }
    assert(xs@.subrange(0, xs.len() as int) =~= xs@);
}

fn collect_pair_names(ps: &Vec<(PropValue, PropValue)>, out: &mut Vec<u32>)
    ensures
        final(out)@ == old(out)@ + pair_names(ps@),
    decreases ps, 0int,
{
    let ghost start = out@;
    let mut i: usize = 0;
    assert(start + pair_names(ps@.subrange(0, 0)) =~= start);
    while i < ps.len()
        invariant
            i <= ps.len(),
            out@ == start + pair_names(ps@.subrange(0, i as int)),
        decreases ps.len() - i,
    {
        proof {
            let t = ps@.subrange(0, i + 1);
            assert(t.subrange(0, t.len() - 1) =~= ps@.subrange(0, i as int));
            assert(t[t.len() - 1] == ps@[i as int]);
        }
        collect_value_names(&ps[i].0, out);
        collect_value_names(&ps[i].1, out);
        proof {
            assert(out@ =~= start + pair_names(ps@.subrange(0, i + 1)));
        }
        i += 1;
    }
    assert(ps@.subrange(0, ps.len() as int) =~= ps@);
}

fn collect_entry_names(es: &Vec<PropertyEntry>, out: &mut Vec<u32>)
    ensures
        final(out)@ == old(out)@ + entry_names(es@),
    decreases es, 0int,
{
    let ghost start = out@;
    let mut i: usize = 0;
    assert(start + entry_names(es@.subrange(0, 0)) =~= start);
    while i < es.len()
        invariant
            i <= es.len(),
            out@ == start + entry_names(es@.subrange(0, i as int)),
        decreases es.len() - i,
    {
        proof {
            let t = es@.subrange(0, i + 1);
            assert(t.subrange(0, t.len() - 1) =~= es@.subrange(0, i as int));
            assert(t[t.len() - 1] == es@[i as int]);
        }
        collect_value_names(&es[i].value, out);
        proof {
            assert(out@ =~= start + entry_names(es@.subrange(0, i + 1)));
        }
        i += 1;
    }
    assert(es@.subrange(0, es.len() as int) =~= es@);
}

fn collect_value_objects(v: &PropValue, out: &mut Vec<i32>)
    ensures
        final(out)@ == old(out)@ + value_objects(*v),
    decreases v, 1int,
{
    match v {
        PropValue::Object(index) => {
            out.push(*index);
            assert(final(out)@ =~= old(out)@ + value_objects(*v));
        },
        PropValue::Array(xs) => collect_seq_objects(xs, out),
        PropValue::SetItems(xs) => collect_seq_objects(xs, out),
        PropValue::MapPairs(ps) => collect_pair_objects(ps, out),
        PropValue::Struct(block) => collect_entry_objects(&block.entries, out),
        PropValue::WithRemovals { removals, inner, .. } => {
            collect_seq_objects(removals, out);
            collect_value_objects(&**inner, out);
            assert(final(out)@ =~= old(out)@ + value_objects(*v));
        },
        _ => {
            assert(final(out)@ =~= old(out)@ + value_objects(*v));
        },
    }
}

fn collect_seq_objects(xs: &Vec<PropValue>, out: &mut Vec<i32>)
    ensures
        final(out)@ == old(out)@ + seq_objects(xs@),
    decreases xs, 0int,
{
    let ghost start = out@;
    let mut i: usize = 0;
    assert(start + seq_objects(xs@.subrange(0, 0)) =~= start);
    while i < xs.len()
        invariant
            i <= xs.len(),
            out@ == start + seq_objects(xs@.subrange(0, i as int)),
        decreases xs.len() - i,
    {
        proof {
            let t = xs@.subrange(0, i + 1);
            assert(t.subrange(0, t.len() - 1) =~= xs@.subrange(0, i as int));
            assert(t[t.len() - 1] == xs@[i as int]);
        }
        collect_value_objects(&xs[i], out);
        proof {
            assert(out@ =~= start + seq_objects(xs@.subrange(0, i + 1)));
        }
        i += 1;
    }
    assert(xs@.subrange(0, xs.len() as int) =~= xs@);
}

fn collect_pair_objects(ps: &Vec<(PropValue, PropValue)>, out: &mut Vec<i32>)
    ensures
        final(out)@ == old(out)@ + pair_objects(ps@),
    decreases ps, 0int,
{
    let ghost start = out@;
    let mut i: usize = 0;
    assert(start + pair_objects(ps@.subrange(0, 0)) =~= start);
    while i < ps.len()
        invariant
            i <= ps.len(),
            out@ == start + pair_objects(ps@.subrange(0, i as int)),
        decreases ps.len() - i,
    {
        proof {
            let t = ps@.subrange(0, i + 1);
            assert(t.subrange(0, t.len() - 1) =~= ps@.subrange(0, i as int));
            assert(t[t.len() - 1] == ps@[i as int]);
        }
        collect_value_objects(&ps[i].0, out);
        collect_value_objects(&ps[i].1, out);
        proof {
            assert(out@ =~= start + pair_objects(ps@.subrange(0, i + 1)));
        }
        i += 1;
    }
    assert(ps@.subrange(0, ps.len() as int) =~= ps@);
}

fn collect_entry_objects(es: &Vec<PropertyEntry>, out: &mut Vec<i32>)
    ensures
        final(out)@ == old(out)@ + entry_objects(es@),
    decreases es, 0int,
{
    let ghost start = out@;
    let mut i: usize = 0;
    assert(start + entry_objects(es@.subrange(0, 0)) =~= start);
    while i < es.len()
        invariant
            i <= es.len(),
            out@ == start + entry_objects(es@.subrange(0, i as int)),
        decreases es.len() - i,
    {
        proof {
            let t = es@.subrange(0, i + 1);
            assert(t.subrange(0, t.len() - 1) =~= es@.subrange(0, i as int));
            assert(t[t.len() - 1] == es@[i as int]);
        }
        collect_value_objects(&es[i].value, out);
        proof {
            assert(out@ =~= start + entry_objects(es@.subrange(0, i + 1)));
        }
        i += 1;
    }
    assert(es@.subrange(0, es.len() as int) =~= es@);
}

// ---------------------------------------------------------------------------
// References, in the order they are counted
// ---------------------------------------------------------------------------

pub open spec fn export_site(k: nat) -> Seq<char> {
    "export "@ + decimal(k) + " object name"@
}

pub open spec fn cell_site(k: nat) -> Seq<char> {
    "cell export "@ + decimal(k) + " class"@
}

pub open spec fn property_site(k: nat) -> Seq<char> {
    "export "@ + decimal(k) + " properties"@
}

pub open spec fn export_events(entries: Seq<crate::header::FExportMapEntry>) -> Seq<(u32, Seq<char>)>
    decreases entries.len(),
{
    if entries.len() == 0 {
        Seq::empty()
    } else {
        export_events(entries.drop_last()).push(
            (entries.last().object_name.index, export_site((entries.len() - 1) as nat)),
        )
    }
}

pub open spec fn cell_events(cells: Seq<crate::header::FCellExportMapEntry>) -> Seq<(u32, Seq<char>)>
    decreases cells.len(),
{
    if cells.len() == 0 {
        Seq::empty()
    } else {
        cell_events(cells.drop_last()).push(
            (cells.last().cpp_class_info.index, cell_site((cells.len() - 1) as nat)),
        )
    }
}

/// One reference per name in each export's reflected properties.
pub open spec fn property_events(exports: Seq<ChimpExport>) -> Seq<(u32, Seq<char>)>
    decreases exports.len(),
{
    if exports.len() == 0 {
        Seq::empty()
    } else {
        let site = property_site((exports.len() - 1) as nat);
        property_events(exports.drop_last()) + match reflected_block(exports.last()) {
            Some(block) => entry_names(block.entries@).map_values(|index: u32| (index, site)),
            None => Seq::empty(),
        }
    }
}

/// Every reference into the name map, with where it is, in counting order:
/// the package name, each export's object name, each cell export's class,
/// then the names in each export's properties.
pub open spec fn header_events(document: ChimpDocument) -> Seq<(u32, Seq<char>)> {
    seq![(document.header.summary.name.index, "package name"@)] + export_events(
        document.header.export_map@,
    ) + cell_events(document.header.cell_export_map@) + property_events(document.exports@)
}

/// `sites` after one more reference from `site`: listed when new and fewer
/// than eight are listed.
pub open spec fn record_site(sites: Seq<Seq<char>>, site: Seq<char>) -> Seq<Seq<char>> {
    if sites.len() < 8 && !sites.contains(site) {
        sites.push(site)
    } else {
        sites
    }
}

pub open spec fn usage_count(events: Seq<(u32, Seq<char>)>, i: int) -> nat
    decreases events.len(),
{
    if events.len() == 0 {
        0
    } else {
        usage_count(events.drop_last(), i) + if events.last().0 == i {
            1nat
        } else {
            0nat
        }
    }
}

pub open spec fn usage_sites(events: Seq<(u32, Seq<char>)>, i: int) -> Seq<Seq<char>>
    decreases events.len(),
{
    if events.len() == 0 {
        Seq::empty()
    } else if events.last().0 == i {
        record_site(usage_sites(events.drop_last(), i), events.last().1)
    } else {
        usage_sites(events.drop_last(), i)
    }
}

/// A name's usage lists at most eight sites, never more sites than it
/// counts references, and no site twice.
pub proof fn lemma_usage_sites_bounded(events: Seq<(u32, Seq<char>)>, i: int)
    ensures
        usage_sites(events, i).len() <= 8,
        usage_sites(events, i).len() <= usage_count(events, i),
        usage_sites(events, i).no_duplicates(),
    decreases events.len(),
{
    if events.len() > 0 {
        lemma_usage_sites_bounded(events.drop_last(), i);
        let before = usage_sites(events.drop_last(), i);
        let site = events.last().1;
        if events.last().0 == i && before.len() < 8 && !before.contains(site) {
            assert forall|a: int, b: int| 0 <= a < b < before.push(site).len() implies before.push(site)[a]
                != before.push(site)[b] by {
                if b == before.len() {
                    assert(before[a] == before.push(site)[a]);
                }
            }
        }
    }
}

/// Every object reference in the exports' reflected properties.
pub open spec fn object_events(exports: Seq<ChimpExport>) -> Seq<i32>
    decreases exports.len(),
{
    if exports.len() == 0 {
        Seq::empty()
    } else {
        object_events(exports.drop_last()) + match reflected_block(exports.last()) {
            Some(block) => entry_objects(block.entries@),
            None => Seq::empty(),
        }
    }
}

pub open spec fn count_of(objects: Seq<i32>, target: int) -> nat
    decreases objects.len(),
{
    if objects.len() == 0 {
        0
    } else {
        count_of(objects.drop_last(), target) + if objects.last() == target {
            1nat
        } else {
            0nat
        }
    }
}

proof fn lemma_usage_count_bound(events: Seq<(u32, Seq<char>)>, i: int)
    ensures
        usage_count(events, i) <= events.len(),
    decreases events.len(),
{
    if events.len() > 0 {
        lemma_usage_count_bound(events.drop_last(), i);
    }
}

proof fn lemma_count_of_bound(objects: Seq<i32>, target: int)
    ensures
        count_of(objects, target) <= objects.len(),
    decreases objects.len(),
{
    if objects.len() > 0 {
        lemma_count_of_bound(objects.drop_last(), target);
    }
}

pub open spec fn event_views(events: Seq<(u32, String)>) -> Seq<(u32, Seq<char>)> {
    events.map_values(|e: (u32, String)| (e.0, e.1@))
}

fn site_text(head: &str, k: usize, tail: &str) -> (out: String)
    ensures
        out@ == head@ + decimal(k as nat) + tail@,
{
    let mut t = chars_of(head);
    push_decimal(&mut t, k as u64);
    push_str(&mut t, tail);
    string_of(&t)
}

fn push_event(events: &mut Vec<(u32, String)>, index: u32, site: String)
    ensures
        event_views(final(events)@) == event_views(old(events)@).push((index, site@)),
{
    events.push((index, site));
    assert(event_views(final(events)@) =~= event_views(old(events)@).push((index, site@)));
}

fn collect_header_events(document: &ChimpDocument) -> (out: Vec<(u32, String)>)
    ensures
        event_views(out@) == header_events(*document),
{
    let mut events: Vec<(u32, String)> = Vec::new();
    push_event(&mut events, document.header.summary.name.index, string_of(&chars_of("package name")));
    let ghost first = event_views(events@);
    let mut k: usize = 0;
    while k < document.header.export_map.len()
        invariant
            k <= document.header.export_map.len(),
            event_views(events@) == first + export_events(document.header.export_map@.take(k as int)),
        decreases document.header.export_map.len() - k,
    {
        proof {
            assert(document.header.export_map@.take(k + 1).drop_last() =~= document.header.export_map@.take(k as int));
        }
        push_event(
            &mut events,
            document.header.export_map[k].object_name.index,
            site_text("export ", k, " object name"),
        );
        proof {
            assert(event_views(events@) =~= first + export_events(document.header.export_map@.take(k + 1)));
        }
        k += 1;
    }
    assert(document.header.export_map@.take(k as int) =~= document.header.export_map@);
    let ghost second = event_views(events@);
    let mut c: usize = 0;
    while c < document.header.cell_export_map.len()
        invariant
            c <= document.header.cell_export_map.len(),
            event_views(events@) == second + cell_events(document.header.cell_export_map@.take(c as int)),
        decreases document.header.cell_export_map.len() - c,
    {
        proof {
            assert(document.header.cell_export_map@.take(c + 1).drop_last() =~= document.header.cell_export_map@.take(c as int));
        }
        push_event(
            &mut events,
            document.header.cell_export_map[c].cpp_class_info.index,
            site_text("cell export ", c, " class"),
        );
        proof {
            assert(event_views(events@) =~= second + cell_events(document.header.cell_export_map@.take(c + 1)));
        }
        c += 1;
    }
    assert(document.header.cell_export_map@.take(c as int) =~= document.header.cell_export_map@);
    let ghost third = event_views(events@);
    let mut e: usize = 0;
    while e < document.exports.len()
        invariant
            e <= document.exports.len(),
            event_views(events@) == third + property_events(document.exports@.take(e as int)),
        decreases document.exports.len() - e,
    {
        let ghost before = event_views(events@);
        proof {
            assert(document.exports@.take(e + 1).drop_last() =~= document.exports@.take(e as int));
            assert(document.exports@.take(e + 1).last() == document.exports@[e as int]);
        }
        let mut names: Vec<u32> = Vec::new();
        let mut reflected = false;
        if let Ok(decoded) = &document.exports[e].decoded {
            if let ExportBlock::Reflected(block) = &decoded.block {
                collect_entry_names(&block.entries, &mut names);
                reflected = true;
            }
        }
        assert(reflected_block(document.exports@[e as int]) is Some ==> names@ =~= entry_names(
            reflected_block(document.exports@[e as int])->Some_0.entries@,
        ));
        assert(reflected_block(document.exports@[e as int]) is None ==> names@.len() == 0);
        let site = site_text("export ", e, " properties");
        let mut j: usize = 0;
        while j < names.len()
            invariant
                j <= names.len(),
                event_views(events@) == before + names@.take(j as int).map_values(
                    |index: u32| (index, site@),
                ),
            decreases names.len() - j,
        {
            push_event(&mut events, names[j], site.clone());
            proof {
                assert(names@.take(j + 1).map_values(|index: u32| (index, site@)) =~= names@.take(
                    j as int,
                ).map_values(|index: u32| (index, site@)).push((names@[j as int], site@)));
            }
            j += 1;
        }
        proof {
            assert(names@.take(names.len() as int) =~= names@);
            let added = names@.map_values(|index: u32| (index, site@));
            assert(event_views(events@) == before + added);
            assert(event_views(events@) =~= third + property_events(document.exports@.take(e + 1)));
        }
        e += 1;
    }
    assert(document.exports@.take(e as int) =~= document.exports@);
    events
}

proof fn lemma_record_site(sites: Seq<String>, site: String)
    ensures
        has_site(sites, site@) == views(sites).contains(site@),
        views(sites.push(site)) == views(sites).push(site@),
{
    if has_site(sites, site@) {
        let i = choose|i: int| 0 <= i < sites.len() && #[trigger] sites[i]@ == site@;
        assert(views(sites)[i] == site@);
    }
    if views(sites).contains(site@) {
        let i = choose|i: int| 0 <= i < views(sites).len() && views(sites)[i] == site@;
        assert(sites[i]@ == site@);
    }
    assert(views(sites.push(site)) =~= views(sites).push(site@));
}

fn collect_object_events(exports: &Vec<ChimpExport>) -> (out: Vec<i32>)
    ensures
        out@ == object_events(exports@),
{
    let mut objects: Vec<i32> = Vec::new();
    let mut e: usize = 0;
    while e < exports.len()
        invariant
            e <= exports.len(),
            objects@ == object_events(exports@.take(e as int)),
        decreases exports.len() - e,
    {
        proof {
            assert(exports@.take(e + 1).drop_last() =~= exports@.take(e as int));
            assert(exports@.take(e + 1).last() == exports@[e as int]);
        }
        let ghost before = objects@;
        if let Ok(decoded) = &exports[e].decoded {
            if let ExportBlock::Reflected(block) = &decoded.block {
                collect_entry_objects(&block.entries, &mut objects);
            }
        }
        assert(objects@ =~= object_events(exports@.take(e + 1)));
        e += 1;
    }
    assert(exports@.take(e as int) =~= exports@);
    objects
}

/// Recompute who references each name-map entry and each import slot.
///
/// Each entry's usage counts every reference to it: the package name, an
/// export's object name, a cell export's class, and every name in an export's
/// reflected properties; it lists where, as `record` does, in that order. The
/// entry behind the package name is marked as its identity. Each import slot
/// counts the object properties whose `FPackageIndex` names it (`-1` is slot
/// 0).
pub fn refresh_chimp_header_usage(document: &ChimpDocument) -> (out: ChimpHeaderUsage)
    ensures
        out.names@.len() == document.header.name_map.names@.len(),
        forall|i: int|
            0 <= i < document.header.name_map.names@.len() ==> {
                &&& (#[trigger] out.names@[i]).count == usage_count(header_events(*document), i)
                &&& views(out.names@[i].sites@) == usage_sites(header_events(*document), i)
                &&& out.names@[i].is_package_identity == (i
                    == document.header.summary.name.index)
                &&& out.names@[i].sites@.len() <= 8
                &&& out.names@[i].sites@.len() <= out.names@[i].count
            },
        out.import_references@.len() == document.header.import_slots@.len(),
        forall|s: int|
            0 <= s < document.header.import_slots@.len() ==> #[trigger] out.import_references@[s]
                == count_of(object_events(document.exports@), -(s + 1)),
{
    let events = collect_header_events(document);
    let ghost all = event_views(events@);
    let n = document.header.name_map.names.len();
    let mut usages: Vec<ChimpNameUsage> = Vec::new();
    let mut i: usize = 0;
    while i < n
        invariant
            i <= n,
            usages@.len() == i,
            forall|k: int|
                0 <= k < i ==> {
                    &&& (#[trigger] usages@[k]).count == 0
                    &&& usages@[k].sites@.len() == 0
                    &&& !usages@[k].is_package_identity
                },
        decreases n - i,
    {
        usages.push(ChimpNameUsage::default());
        i += 1;
    }
    let mut j: usize = 0;
    while j < events.len()
        invariant
            j <= events.len(),
            all == event_views(events@),
            usages@.len() == n,
            forall|k: int|
                0 <= k < n ==> {
                    &&& (#[trigger] usages@[k]).count == usage_count(all.take(j as int), k)
                    &&& views(usages@[k].sites@) == usage_sites(all.take(j as int), k)
                    &&& !usages@[k].is_package_identity
                },
        decreases events.len() - j,
    {
        let index = events[j].0;
        let site = events[j].1.clone();
        proof {
            assert(all.take(j + 1).drop_last() =~= all.take(j as int));
            assert(all.take(j + 1).last() == (index, site@));
        }
        if (index as usize) < n {
            let ghost before = usages@;
            proof {
                lemma_usage_count_bound(all.take(j as int), index as int);
                lemma_record_site(before[index as int].sites@, site);
            }
            let usage = &mut usages[index as usize];
            usage.record(site);
            proof {
                assert forall|k: int| 0 <= k < n implies {
                    &&& (#[trigger] usages@[k]).count == usage_count(all.take(j + 1), k)
                    &&& views(usages@[k].sites@) == usage_sites(all.take(j + 1), k)
                    &&& !usages@[k].is_package_identity
                } by {
                    if k != index as int {
                        assert(usages@[k] == before[k]);
                    }
                }
            }
        } else {
            proof {
                assert forall|k: int| 0 <= k < n implies {
                    &&& (#[trigger] usages@[k]).count == usage_count(all.take(j + 1), k)
                    &&& views(usages@[k].sites@) == usage_sites(all.take(j + 1), k)
                    &&& !usages@[k].is_package_identity
                } by {}
            }
        }
        j += 1;
    }
    assert(all.take(j as int) =~= all);
    let identity = document.header.summary.name.index as usize;
    if identity < n {
        let ghost before = usages@;
        let usage = &mut usages[identity];
        usage.is_package_identity = true;
        proof {
            assert forall|k: int| 0 <= k < n && k != identity implies #[trigger] usages@[k] == before[k] by {}
        }
    }
    let objects = collect_object_events(&document.exports);
    let slots = document.header.import_slots.len();
    let mut references: Vec<usize> = Vec::new();
    let mut s: usize = 0;
    while s < slots
        invariant
            s <= slots == document.header.import_slots@.len(),
            objects@ == object_events(document.exports@),
            references@.len() == s,
            forall|t: int| 0 <= t < s ==> #[trigger] references@[t] == count_of(objects@, -(t + 1)),
        decreases slots - s,
    {
        let target: i128 = -(s as i128 + 1);
        let mut count: usize = 0;
        let mut m: usize = 0;
        while m < objects.len()
            invariant
                m <= objects.len(),
                target == -(s + 1),
                count == count_of(objects@.take(m as int), target as int),
            decreases objects.len() - m,
        {
            proof {
                assert(objects@.take(m + 1).drop_last() =~= objects@.take(m as int));
                lemma_count_of_bound(objects@.take(m as int), target as int);
            }
            if objects[m] as i128 == target {
                count = count + 1;
            }
            m += 1;
        }
        assert(objects@.take(m as int) =~= objects@);
        references.push(count);
        s += 1;
    }
    proof {
        assert forall|i: int| 0 <= i < n implies {
            &&& (#[trigger] usages@[i]).sites@.len() <= 8
            &&& usages@[i].sites@.len() <= usages@[i].count
        } by {
            lemma_usage_sites_bounded(header_events(*document), i);
            assert(views(usages@[i].sites@).len() == usages@[i].sites@.len());
        }
    }
    ChimpHeaderUsage { names: usages, import_references: references }
}

// ---------------------------------------------------------------------------
// Where the names of a value come from
// ---------------------------------------------------------------------------

/// A name value refers to its own entry, and a value with no names inside
/// it (a number, a string, an object reference, raw bytes) to none.
pub proof fn lemma_leaf_names(n: FName, i: i64, s: String, o: i32)
    ensures
        value_names(PropValue::Name(n)) == seq![n.index],
        value_names(PropValue::Int(i)) == Seq::<u32>::empty(),
        value_names(PropValue::Str(s)) == Seq::<u32>::empty(),
        value_names(PropValue::Object(o)) == Seq::<u32>::empty(),
{
}

/// The names in a struct are the names in its properties, in order: a
/// struct with no properties has none, and one more property adds its
/// value's names after the others'. So a name nested in a struct is a
/// reference just as it would be at the top level.
pub proof fn lemma_struct_names(entries: Seq<PropertyEntry>, entry: PropertyEntry)
    ensures
        entry_names(Seq::<PropertyEntry>::empty()) == Seq::<u32>::empty(),
        forall|v: Vec<PropertyEntry>| #[trigger] v@ == entries ==> value_names(
            PropValue::Struct(PropertyBlock { entries: v }),
        ) == entry_names(entries),
        entry_names(entries.push(entry)) == entry_names(entries) + value_names(entry.value),
        entry_names(seq![entry]) == value_names(entry.value),
{
    assert(entries.push(entry).subrange(0, entries.len() as int) =~= entries);
    assert(seq![entry].subrange(0, 0) =~= Seq::<PropertyEntry>::empty());
    assert(Seq::<u32>::empty() + value_names(entry.value) =~= value_names(entry.value));
}

/// The names in an array or a set are its elements' names, in order, and
/// those in a map each key's names then its value's; a change against a
/// default holds its removals' names then those of what it wraps.
pub proof fn lemma_container_names(xs: Seq<PropValue>, x: PropValue, ps: Seq<(PropValue, PropValue)>, k: PropValue)
    ensures
        seq_names(xs.push(x)) == seq_names(xs) + value_names(x),
        seq_names(seq![x]) == value_names(x),
        pair_names(ps.push((k, x))) == pair_names(ps) + value_names(k) + value_names(x),
        forall|v: Vec<PropValue>| #[trigger] v@ == xs ==> value_names(PropValue::Array(v)) == seq_names(xs)
            && value_names(PropValue::SetItems(v)) == seq_names(xs),
        forall|v: Vec<PropValue>, inner: Box<PropValue>, debug: String|
            v@ == xs ==> #[trigger] value_names(PropValue::WithRemovals { removals: v, inner, debug })
                == seq_names(xs) + value_names(*inner),
{
    assert(xs.push(x).subrange(0, xs.len() as int) =~= xs);
    assert(seq![x].subrange(0, 0) =~= Seq::<PropValue>::empty());
    assert(seq![x][0] == x);
    assert(seq_names(Seq::<PropValue>::empty()) == Seq::<u32>::empty());
    assert(Seq::<u32>::empty() + value_names(x) =~= value_names(x));
    assert(ps.push((k, x)).subrange(0, ps.len() as int) =~= ps);
}

proof fn lemma_entry_names_hold(es: Seq<PropertyEntry>, j: int, n: u32)
    requires
        0 <= j < es.len(),
        value_names(es[j].value).contains(n),
    ensures
        entry_names(es).contains(n),
    decreases es.len(),
{
    let front = es.subrange(0, es.len() - 1);
    let last = value_names(es[es.len() - 1].value);
    if j == es.len() - 1 {
        let m = choose|m: int| 0 <= m < last.len() && last[m] == n;
        assert((entry_names(front) + last)[entry_names(front).len() + m] == n);
    } else {
        assert(front[j] == es[j]);
        lemma_entry_names_hold(front, j, n);
        let m = choose|m: int| 0 <= m < entry_names(front).len() && entry_names(front)[m] == n;
        assert((entry_names(front) + last)[m] == n);
    }
}

proof fn lemma_property_events_hold(exports: Seq<ChimpExport>, k: int, n: u32)
    requires
        0 <= k < exports.len(),
        reflected_block(exports[k]) matches Some(block) && entry_names(block.entries@).contains(n),
    ensures
        exists|m: int| 0 <= m < property_events(exports).len() && #[trigger] property_events(exports)[m].0 == n,
    decreases exports.len(),
{
    let front = exports.drop_last();
    let site = property_site((exports.len() - 1) as nat);
    if k == exports.len() - 1 {
        let block = reflected_block(exports[k])->Some_0;
        let names = entry_names(block.entries@);
        let mapped = names.map_values(|index: u32| (index, site));
        let m = choose|m: int| 0 <= m < names.len() && names[m] == n;
        assert(mapped[m].0 == n);
        assert(property_events(exports) == property_events(front) + mapped);
        assert((property_events(front) + mapped)[property_events(front).len() + m] == mapped[m]);
        assert(property_events(exports)[property_events(front).len() + m].0 == n);
    } else {
        assert(front[k] == exports[k]);
        lemma_property_events_hold(front, k, n);
        let m = choose|m: int| 0 <= m < property_events(front).len() && #[trigger] property_events(front)[m].0 == n;
        let rest = match reflected_block(exports.last()) {
            Some(block) => entry_names(block.entries@).map_values(|index: u32| (index, site)),
            None => Seq::empty(),
        };
        assert(property_events(exports) == property_events(front) + rest);
        assert((property_events(front) + rest)[m] == property_events(front)[m]);
        assert(property_events(exports)[m].0 == n);
    }
}

proof fn lemma_usage_count_positive(events: Seq<(u32, Seq<char>)>, m: int)
    requires
        0 <= m < events.len(),
    ensures
        usage_count(events, events[m].0 as int) >= 1,
    decreases events.len(),
{
    if m < events.len() - 1 {
        assert(events.drop_last()[m] == events[m]);
        lemma_usage_count_positive(events.drop_last(), m);
    }
}

/// A name anywhere in an export's reflected properties is a reference to
/// its entry: when the names of one property's value (a name nested in
/// structs, arrays, sets, maps or removals included) hold entry `n`, that
/// entry is counted as used at least once.
pub proof fn lemma_property_names_are_counted(document: ChimpDocument, k: int, j: int, n: u32)
    requires
        0 <= k < document.exports@.len(),
        reflected_block(document.exports@[k]) matches Some(block) && 0 <= j < block.entries@.len()
            && value_names(block.entries@[j].value).contains(n),
    ensures
        usage_count(header_events(document), n as int) >= 1,
{
    let block = reflected_block(document.exports@[k])->Some_0;
    lemma_entry_names_hold(block.entries@, j, n);
    lemma_property_events_hold(document.exports@, k, n);
    let pe = property_events(document.exports@);
    let m = choose|m: int| 0 <= m < pe.len() && #[trigger] pe[m].0 == n;
    let head = seq![(document.header.summary.name.index, "package name"@)] + export_events(
        document.header.export_map@,
    ) + cell_events(document.header.cell_export_map@);
    assert(header_events(document) == head + pe);
    assert((head + pe)[head.len() + m] == pe[m]);
    lemma_usage_count_positive(head + pe, head.len() + m);
}

} // verus!
