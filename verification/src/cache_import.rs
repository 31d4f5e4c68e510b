//! Importing a monolithic cache's tags into an editing kit: which kits an
//! import can land in, when the Import Cache Folder window opens, and what
//! it shows while a run reports progress.

use vstd::prelude::*;

use crate::extract::KitId;
use crate::order::{items_of, key_views, lemma_stable_sort_items, sort_keyed, stable_sort, Keyed, SortKey};
use crate::text::{chars_of, push_str, string_of};

verus! {

/// Where a workspace's tags come from.
pub enum TagSource {
    /// A loose editing kit, with the game it was detected as, if any.
    LooseFolder { root: String, game: Option<String> },
    /// A monolithic cache: read-only.
    MonolithicCache,
    /// A Chimp package container.
    ChimpContainer,
}

pub struct KitSource {
    pub label: String,
    pub source: TagSource,
}

/// An open workspace, as far as importing into it is concerned.
pub struct Kit {
    pub id: KitId,
    pub source: Option<KitSource>,
}

/// One editing kit an import could land in.
pub struct CacheImportTarget {
    pub kit: KitId,
    pub label: String,
    pub game: String,
    pub tags_root: String,
}

pub struct FolderConversionProgress {
    pub phase: String,
    pub current: String,
    pub processed: usize,
    pub total: usize,
    pub converted: usize,
    pub failed: usize,
}

/// The Import Cache Folder window.
pub struct CacheImportDialog {
    /// The cache workspace the tags come out of.
    pub kit: KitId,
    /// Tag-name prefix; empty is the whole cache.
    pub prefix: String,
    /// How many tags sit under `prefix`.
    pub selected: usize,
    /// The open loose kits this could land in, resolved when the window opened.
    pub targets: Vec<CacheImportTarget>,
    pub target_index: usize,
    pub running: bool,
    pub progress: Option<FolderConversionProgress>,
    pub error: Option<String>,
}

impl CacheImportDialog {
    /// The chosen destination, if the choice is still one of the targets.
    pub fn target(&self) -> (out: Option<&CacheImportTarget>)
        ensures
            self.target_index < self.targets@.len() ==> out == Some(
                &self.targets@[self.target_index as int],
            ),
            self.target_index >= self.targets@.len() ==> out is None,
    {
        if self.target_index < self.targets.len() {
            Some(&self.targets[self.target_index])
        } else {
            None
        }
    }
}

/// The editor state the import window lives in: the open workspaces, which
/// one is active, the window, and the status line.
pub struct Baboon {
    pub kits: Vec<Kit>,
    pub active_kit: usize,
    pub cache_import_dialog: Option<CacheImportDialog>,
    pub status: String,
}

/// A kit an import can land in: a loose folder with a detected game.
pub open spec fn is_target(kit: Kit) -> bool {
    kit.source matches Some(s) && s.source matches TagSource::LooseFolder { game: Some(_), .. }
}

pub open spec fn kit_label(kit: Kit) -> Seq<char> {
    match kit.source {
        Some(s) => s.label@,
        None => Seq::empty(),
    }
}

/// The positions of the kits an import can land in, in kit order.
pub open spec fn target_kits(kits: Seq<Kit>) -> Seq<int>
    decreases kits.len(),
{
    if kits.len() == 0 {
        Seq::empty()
    } else if is_target(kits.last()) {
        target_kits(kits.drop_last()).push(kits.len() - 1)
    } else {
        target_kits(kits.drop_last())
    }
}

/// Those positions ordered by label, ties kept in kit order.
pub open spec fn target_order(kits: Seq<Kit>) -> Seq<usize> {
    let q = target_kits(kits);
    items_of(
        stable_sort(
            Seq::new(
                q.len(),
                |t: int| SortKey { item: q[t] as usize, group: 0, name: kit_label(kits[q[t]]) },
            ),
        ),
    )
}

/// `target` is what kit `kit` offers as a destination.
pub open spec fn target_of(kit: Kit, target: CacheImportTarget) -> bool {
    &&& target.kit == kit.id
    &&& kit.source matches Some(s)
    &&& target.label@ == s.label@
    &&& s.source matches TagSource::LooseFolder { root, game: Some(game) }
    &&& target.tags_root@ == root@
    &&& target.game@ == game@
}

proof fn lemma_target_kits_in_range(kits: Seq<Kit>)
    ensures
        forall|t: int|
            0 <= t < target_kits(kits).len() ==> 0 <= #[trigger] target_kits(kits)[t] < kits.len()
                && is_target(kits[target_kits(kits)[t]]),
    decreases kits.len(),
{
    if kits.len() > 0 {
        let rest = kits.drop_last();
        lemma_target_kits_in_range(rest);
        assert forall|t: int| 0 <= t < target_kits(kits).len() implies 0
            <= #[trigger] target_kits(kits)[t] < kits.len() && is_target(kits[target_kits(kits)[t]]) by {
            if t < target_kits(rest).len() {
                assert(target_kits(kits)[t] == target_kits(rest)[t]);
                assert(kits[target_kits(rest)[t]] == rest[target_kits(rest)[t]]);
            }
        }
    }
}

impl Baboon {
    /// Every open loose workspace with a detected game, as somewhere to land,
    /// ordered by label so the list does not shuffle between openings.
    pub fn cache_import_targets(&self) -> (out: Vec<CacheImportTarget>)
        ensures
            out@.len() == target_order(self.kits@).len(),
            forall|j: int|
                0 <= j < out@.len() ==> target_of(
                    self.kits@[target_order(self.kits@)[j] as int],
                    #[trigger] out@[j],
                ),
    {
        let ghost q = target_kits(self.kits@);
        let mut keyed: Vec<Keyed> = Vec::new();
        let mut k: usize = 0;
        while k < self.kits.len()
            invariant
                k <= self.kits.len(),
                key_views(keyed@) == Seq::new(
                    target_kits(self.kits@.take(k as int)).len(),
                    |t: int|
                        SortKey {
                            item: target_kits(self.kits@.take(k as int))[t] as usize,
                            group: 0,
                            name: kit_label(self.kits@[target_kits(self.kits@.take(k as int))[t]]),
                        },
                ),
                forall|t: int|
                    0 <= t < target_kits(self.kits@.take(k as int)).len() ==> 0
                        <= #[trigger] target_kits(self.kits@.take(k as int))[t] < k,
            decreases self.kits.len() - k,
        {
            proof {
                assert(self.kits@.take(k + 1).drop_last() =~= self.kits@.take(k as int));
                assert(self.kits@.take(k + 1).last() == self.kits@[k as int]);
            }
            let ghost before = key_views(keyed@);
            if let Some(source) = &self.kits[k].source {
                if let TagSource::LooseFolder { game: Some(_), .. } = &source.source {
                    let item = Keyed { item: k, group: 0, name: chars_of(source.label.as_str()) };
                    keyed.push(item);
                    proof {
                        assert(key_views(keyed@) =~= before.push(item@));
                    }
                }
            }
            proof {
                let after = target_kits(self.kits@.take(k + 1));
                assert(key_views(keyed@) =~= Seq::new(
                    after.len(),
                    |t: int|
                        SortKey {
                            item: after[t] as usize,
                            group: 0,
                            name: kit_label(self.kits@[after[t]]),
                        },
                ));
            }
            k += 1;
        }
        assert(self.kits@.take(k as int) =~= self.kits@);
        let ghost keys = key_views(keyed@);
        let order = sort_keyed(keyed);
        proof {
            lemma_stable_sort_items(keys);
            lemma_target_kits_in_range(self.kits@);
        }
        let mut out: Vec<CacheImportTarget> = Vec::new();
        let kit_count = self.kits.len();
        let mut j: usize = 0;
        while j < order.len()
            invariant
                j <= order.len(),
                self.kits@.len() == kit_count,
                order@ == target_order(self.kits@),
                keys == Seq::new(
                    q.len(),
                    |t: int| SortKey { item: q[t] as usize, group: 0, name: kit_label(self.kits@[q[t]]) },
                ),
                q == target_kits(self.kits@),
                stable_sort(keys).len() == keys.len(),
                forall|m: int|
                    0 <= m < stable_sort(keys).len() ==> exists|t: int|
                        0 <= t < keys.len() && #[trigger] stable_sort(keys)[m] == keys[t],
                forall|t: int|
                    0 <= t < q.len() ==> 0 <= #[trigger] q[t] < self.kits@.len() && is_target(
                        self.kits@[q[t]],
                    ),
                out@.len() == j,
                forall|m: int|
                    0 <= m < j ==> target_of(self.kits@[order@[m] as int], #[trigger] out@[m]),
            decreases order.len() - j,
        {
            let ghost t = choose|t: int|
                0 <= t < keys.len() && #[trigger] stable_sort(keys)[j as int] == keys[t];
            assert(order@[j as int] == stable_sort(keys)[j as int].item);
            assert(keys[t].item == q[t] as usize);
            assert(0 <= q[t] < self.kits@.len());
            assert(order@[j as int] as int == q[t]);
            assert(is_target(self.kits@[order@[j as int] as int]));
            let index = order[j];
            let kit = &self.kits[index];
            match &kit.source {
                Some(source) => match &source.source {
                    TagSource::LooseFolder { root, game: Some(game) } => {
                        out.push(
                            CacheImportTarget {
                                kit: kit.id,
                                label: source.label.clone(),
                                game: game.clone(),
                                tags_root: root.clone(),
                            },
                        );
                    },
                    _ => {
                        assert(false);
                    },
                },
                None => {
                    assert(false);
                },
            }
            j += 1;
        }
        out
    }

    /// Open the import window for the tags under `prefix` in the active
    /// workspace, of which there are `selected`.
    ///
    /// Refused, with a status line saying why, when a window is already open,
    /// when the active workspace is not a monolithic cache, when nothing is
    /// under `prefix`, or when no loose kit is open to land in; with no active
    /// source nothing happens at all.
    pub fn open_cache_import_dialog(&mut self, prefix: String, selected: usize)
        ensures
            old(self).cache_import_dialog is Some ==> final(self).status@
                == "A cache import is already open"@ && final(self).cache_import_dialog
                == old(self).cache_import_dialog,
            final(self).kits == old(self).kits,
            final(self).active_kit == old(self).active_kit,
            old(self).cache_import_dialog is None ==> match active_source(*old(self)) {
                None => final(self).status == old(self).status && final(self).cache_import_dialog
                    is None,
                Some(source) => if !(source.source is MonolithicCache) {
                    final(self).status@ == "This is not a monolithic cache workspace"@
                        && final(self).cache_import_dialog is None
                } else if selected == 0 {
                    final(self).status@ == prefix@ + " holds no tags to import"@
                        && final(self).cache_import_dialog is None
                } else if target_order(old(self).kits@).len() == 0 {
                    final(self).status@
                        == "Open the editing kit these tags should land in first \u{2014} File \u{203a} Load Folder"@
                        && final(self).cache_import_dialog is None
                } else {
                    final(self).status == old(self).status && (final(self).cache_import_dialog
                        matches Some(d) && freshly_opened(
                        d,
                        old(self).kits@[old(self).active_kit as int].id,
                        prefix,
                        selected,
                        old(self).kits@,
                    ))
                },
            },
    {
        if self.cache_import_dialog.is_some() {
            self.status = string_of(&chars_of("A cache import is already open"));
            return;
        }
        if self.active_kit >= self.kits.len() {
            return;
        }
        let kit = self.kits[self.active_kit].id;
        let monolithic = match &self.kits[self.active_kit].source {
            None => {
                return;
            },
            Some(source) => match &source.source {
                TagSource::MonolithicCache => true,
                _ => false,
            },
        };
        if !monolithic {
            self.status = string_of(&chars_of("This is not a monolithic cache workspace"));
            return;
        }
        if selected == 0 {
            let mut text = chars_of(prefix.as_str());
            push_str(&mut text, " holds no tags to import");
            self.status = string_of(&text);
            return;
        }
        let targets = self.cache_import_targets();
        if targets.len() == 0 {
            self.status = string_of(
                &chars_of(
                    "Open the editing kit these tags should land in first \u{2014} File \u{203a} Load Folder",
                ),
            );
            return;
        }
        self.cache_import_dialog = Some(
            CacheImportDialog {
                kit,
                prefix,
                selected,
                targets,
                target_index: 0,
                running: false,
                progress: None,
                error: None,
            },
        );
    }

    /// Show a running import's progress; a report for a window that is not
    /// running is dropped. Nothing needs redrawing beyond the window.
    pub fn handle_cache_import_progress(&mut self, progress: FolderConversionProgress) -> (out: bool)
        ensures
            !out,
            final(self).kits == old(self).kits,
            final(self).status == old(self).status,
            match old(self).cache_import_dialog {
                Some(d) => if d.running {
                    final(self).cache_import_dialog matches Some(e) && progressed(d, e, progress)
                } else {
                    final(self).cache_import_dialog == old(self).cache_import_dialog
                },
                None => final(self).cache_import_dialog is None,
            },
    {
        if let Some(dialog) = &mut self.cache_import_dialog {
            if dialog.running {
                dialog.progress = Some(progress);
            }
        }
        false
    }
}

/// `d` is the window as it opens: on `kit`'s tags under `prefix`, the first
/// target chosen, not yet run.
pub open spec fn freshly_opened(
    d: CacheImportDialog,
    kit: KitId,
    prefix: String,
    selected: usize,
    kits: Seq<Kit>,
) -> bool {
    &&& d.kit == kit
    &&& d.prefix == prefix
    &&& d.selected == selected
    &&& d.target_index == 0
    &&& !d.running
    &&& d.progress is None
    &&& d.error is None
    &&& d.targets@.len() == target_order(kits).len()
    &&& forall|j: int|
        0 <= j < d.targets@.len() ==> target_of(kits[target_order(kits)[j] as int], #[trigger] d.targets@[j])
}

/// `e` is the running window `d` showing `progress`.
pub open spec fn progressed(d: CacheImportDialog, e: CacheImportDialog, progress: FolderConversionProgress) -> bool {
    &&& e.progress == Some(progress)
    &&& e.kit == d.kit
    &&& e.prefix == d.prefix
    &&& e.selected == d.selected
    &&& e.targets == d.targets
    &&& e.target_index == d.target_index
    &&& e.running
    &&& e.error == d.error
}

/// The source of the active workspace, if there is one.
pub open spec fn active_source(state: Baboon) -> Option<KitSource> {
    if state.active_kit < state.kits@.len() {
        state.kits@[state.active_kit as int].source
    } else {
        None
    }
}

} // verus!
