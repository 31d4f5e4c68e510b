//! The Blam! import panel: which conventional source folders an asset has,
//! and the tick boxes seeded from them.

use vstd::prelude::*;

use crate::text::{chars_of, string_of, trim, trim_string};

verus! {

/// The pane key the Blam! import panel occupies in a kit's tag tree: a
/// `tool:` key no tag can have, so the pane resolves to no document.
pub const BLAM_KEY: &'static str = "tool:blam";

pub const BLAM_TITLE: &'static str = "Blam!";

/// The pane key the Bitmap Library occupies.
pub const BITMAP_LIBRARY_KEY: &'static str = "tool:bitmap_library";

pub const BITMAP_LIBRARY_TITLE: &'static str = "Bitmap Library";

/// The pane key the Model Library occupies.
pub const MODEL_LIBRARY_KEY: &'static str = "tool:model_library";

/// Which of the conventional tool source folders an asset's data folder has.
/// Each maps to one importable tag group: `render` (render_model),
/// `collision` (collision_model), `physics` (physics_model) and `structure`
/// (structure_bsp).
#[derive(Clone, Copy, Debug, Default, PartialEq, Eq, Structural)]
pub struct BlamFolderScan {
    pub render: bool,
    pub collision: bool,
    pub physics: bool,
    pub structure: bool,
}

pub struct BlamUiState {
    /// Asset folder relative to the kit's `data` folder, backslash form.
    pub asset_path: String,
    /// The asset path the folder scan last ran against; `None` forces a
    /// rescan.
    pub scanned_path: Option<String>,
    pub scan: BlamFolderScan,
    pub import_render: bool,
    pub import_collision: bool,
    pub import_physics: bool,
    pub import_structure: bool,
    pub import_prt: bool,
    /// Shown in the panel's status bar.
    pub status: String,
}

impl Default for BlamUiState {
    fn default() -> (out: Self)
        ensures
            out.asset_path@ == Seq::<char>::empty(),
            out.scanned_path is None,
            out.scan == (BlamFolderScan { render: false, collision: false, physics: false, structure: false }),
            !out.import_render,
            !out.import_collision,
            !out.import_physics,
            !out.import_structure,
            out.import_prt,
            out.status@ == "Ready"@,
    {
        BlamUiState {
            asset_path: String::new(),
            scanned_path: None,
            scan: BlamFolderScan { render: false, collision: false, physics: false, structure: false },
            import_render: false,
            import_collision: false,
            import_physics: false,
            import_structure: false,
            // PRT rides along with a render import whenever one runs.
            import_prt: true,
            status: string_of(&chars_of("Ready")),
        }
    }
}

impl BlamUiState {
    /// Take a fresh scan of the asset's source folders, as the disk answers
    /// it, and re-seed the tick boxes from it: a present folder starts
    /// ticked, a missing one unticked.
    pub fn rescan(&mut self, scan: BlamFolderScan)
        ensures
            final(self).scan == scan,
            final(self).import_render == final(self).scan.render,
            final(self).import_collision == final(self).scan.collision,
            final(self).import_physics == final(self).scan.physics,
            final(self).import_structure == final(self).scan.structure,
            final(self).scanned_path matches Some(p) && p@ == trim(old(self).asset_path@),
            final(self).asset_path == old(self).asset_path,
            final(self).import_prt == old(self).import_prt,
            final(self).status == old(self).status,
    {
        self.scan = scan;
        self.import_render = self.scan.render;
        self.import_collision = self.scan.collision;
        self.import_physics = self.scan.physics;
        self.import_structure = self.scan.structure;
        self.scanned_path = Some(trim_string(self.asset_path.as_str()));
    }

    /// Whether any import is ticked.
    pub fn anything_selected(&self) -> (out: bool)
        ensures
            out == (self.import_render || self.import_collision || self.import_physics
                || self.import_structure),
    {
        self.import_render || self.import_collision || self.import_physics || self.import_structure
    }
}

} // verus!
