use crate::land::grid::Vec2;
use vstd::prelude::*;

verus! {

/// What merging reads of a CELL record: its flags, its grid position and data flags, its
/// name, and which optional parts it has.
#[derive(Debug)]
pub struct CellRecord {
    /// The record flags.
    pub flags: u32,
    /// The grid position of the cell.
    pub grid: Vec2,
    /// The flags of the cell data.
    pub data_flags: u32,
    /// The cell's name.
    pub id: String,
    /// The record has a region.
    pub has_region: bool,
    /// The record has a map color.
    pub has_map_color: bool,
    /// The record has a water height.
    pub has_water_height: bool,
    /// The record has atmosphere data.
    pub has_atmosphere: bool,
}

/// The text of a [`CellRecord`].
pub struct CellView {
    pub flags: u32,
    pub grid: Vec2,
    pub data_flags: u32,
    pub id: Seq<char>,
    pub has_region: bool,
    pub has_map_color: bool,
    pub has_water_height: bool,
    pub has_atmosphere: bool,
}

impl View for CellRecord {
    type V = CellView;

    open spec fn view(&self) -> CellView {
        CellView {
            flags: self.flags,
            grid: self.grid,
            data_flags: self.data_flags,
            id: self.id@,
            has_region: self.has_region,
            has_map_color: self.has_map_color,
            has_water_height: self.has_water_height,
            has_atmosphere: self.has_atmosphere,
        }
    }
}

impl CellRecord {
    /// A copy of this record.
    pub fn copy(&self) -> (r: CellRecord)
        ensures
            r@ == self@,
    {
        CellRecord {
            flags: self.flags,
            grid: self.grid,
            data_flags: self.data_flags,
            id: self.id.clone(),
            has_region: self.has_region,
            has_map_color: self.has_map_color,
            has_water_height: self.has_water_height,
            has_atmosphere: self.has_atmosphere,
        }
    }
}

/// The CELL records of one plugin, in its order.
#[derive(Debug)]
pub struct PluginCells {
    /// The plugin's name.
    pub name: String,
    /// The plugin is an earlier output of this tool, whose cells are not merged again.
    pub generated: bool,
    /// The plugin's CELL records.
    pub cells: Vec<CellRecord>,
}

/// A merged CELL record and the plugins that shaped it, in order.
#[derive(Debug)]
pub struct ModifiedCell {
    /// The merged record.
    pub inner: CellRecord,
    /// The names of the plugins that changed the record.
    pub plugins: Vec<String>,
}

/// The text of a [`ModifiedCell`].
pub struct ModifiedView {
    pub inner: CellView,
    pub plugins: Seq<Seq<char>>,
}

impl View for ModifiedCell {
    type V = ModifiedView;

    open spec fn view(&self) -> ModifiedView {
        ModifiedView { inner: self.inner@, plugins: self.plugins@.map_values(|p: String| p@) }
    }
}

/// Merging `rhs` into `lhs` changes something: the flags or data flags differ, `rhs` names the
/// cell differently, or `lhs` has one of the optional parts.
pub open spec fn cell_changes(lhs: CellView, rhs: CellView) -> bool {
    ||| lhs.flags != rhs.flags
    ||| lhs.data_flags != rhs.data_flags
    ||| (rhs.id.len() > 0 && lhs.id != rhs.id)
    ||| lhs.has_region
    ||| lhs.has_map_color
    ||| lhs.has_water_height
    ||| lhs.has_atmosphere
}

/// `lhs` with `rhs` merged into it: the flags and data flags are combined, and a non-empty
/// name of `rhs` replaces that of `lhs`.
pub open spec fn merged_cell(lhs: CellView, rhs: CellView) -> CellView {
    CellView {
        flags: if lhs.flags != rhs.flags { lhs.flags | rhs.flags } else { lhs.flags },
        data_flags: if lhs.data_flags != rhs.data_flags { lhs.data_flags | rhs.data_flags } else { lhs.data_flags },
        id: if rhs.id.len() > 0 && lhs.id != rhs.id { rhs.id } else { lhs.id },
        ..lhs
    }
}

/// The merged cell after the record `rhs` of plugin `plugin`: when the merge changes something
/// the plugin is added to the list, otherwise it takes the place of the last one.
pub open spec fn merged_into(m: ModifiedView, rhs: CellView, plugin: Seq<char>) -> ModifiedView {
    ModifiedView {
        inner: merged_cell(m.inner, rhs),
        plugins: if cell_changes(m.inner, rhs) {
            m.plugins.push(plugin)
        } else {
            m.plugins.update(m.plugins.len() - 1, plugin)
        },
    }
}

/// The position of the merged cell at `grid`, searching from the end.
pub open spec fn grid_index(cells: Seq<ModifiedView>, grid: Vec2) -> Option<int>
    decreases cells.len(),
{
    if cells.len() == 0 {
        None
    } else if cells.last().inner.grid == grid {
        Some(cells.len() - 1)
    } else {
        grid_index(cells.drop_last(), grid)
    }
}

/// The merged cells after the record `c` of plugin `plugin`.
pub open spec fn with_cell(cells: Seq<ModifiedView>, c: CellView, plugin: Seq<char>) -> Seq<ModifiedView> {
    match grid_index(cells, c.grid) {
        Some(k) => cells.update(k, merged_into(cells[k], c, plugin)),
        None => cells.push(ModifiedView { inner: c, plugins: seq![plugin] }),
    }
}

/// The merged cells after the records `rs` of plugin `plugin`, in order.
pub open spec fn with_cells(cells: Seq<ModifiedView>, rs: Seq<CellView>, plugin: Seq<char>) -> Seq<ModifiedView>
    decreases rs.len(),
{
    if rs.len() == 0 {
        cells
    } else {
        with_cell(with_cells(cells, rs.drop_last(), plugin), rs.last(), plugin)
    }
}

/// The records of a plugin, as text.
pub open spec fn cell_views(rs: Seq<CellRecord>) -> Seq<CellView> {
    rs.map_values(|r: CellRecord| r@)
}

/// The merged cells after the plugins `ps`, in order; plugins generated by this tool are
/// skipped.
pub open spec fn with_plugins(cells: Seq<ModifiedView>, ps: Seq<PluginCells>) -> Seq<ModifiedView>
    decreases ps.len(),
{
    if ps.len() == 0 {
        cells
    } else {
        let before = with_plugins(cells, ps.drop_last());
        let p = ps.last();
        if p.generated {
            before
        } else {
            with_cells(before, cell_views(p.cells@), p.name@)
        }
    }
}

/// Every merged cell has at least one plugin.
pub open spec fn has_sources(cells: Seq<ModifiedView>) -> bool {
    forall|k: int| 0 <= k < cells.len() ==> (#[trigger] cells[k]).plugins.len() > 0
}

/// The views of merged cells.
pub open spec fn modified_views(cells: Seq<ModifiedCell>) -> Seq<ModifiedView> {
    cells.map_values(|m: ModifiedCell| m@)
}

fn find_grid(cells: &Vec<ModifiedCell>, grid: Vec2) -> (r: Option<usize>)
    ensures
        r matches Some(k) ==> grid_index(modified_views(cells@), grid) == Some(k as int) && k < cells@.len(),
        r is None ==> grid_index(modified_views(cells@), grid) is None,
{
    let ghost s = modified_views(cells@);
    let mut i: usize = cells.len();
    proof {
        assert(s.take(i as int) =~= s);
    }
    while i > 0
        invariant
            s == modified_views(cells@),
            0 <= i <= cells@.len(),
            grid_index(s.take(i as int), grid) == grid_index(s, grid),
        decreases i,
    {
        proof {
            assert(s.take(i as int).drop_last() =~= s.take(i - 1));
            assert(s.take(i as int).last() == cells@[i - 1]@);
        }
        if cells[i - 1].inner.grid.x == grid.x && cells[i - 1].inner.grid.y == grid.y {
            return Some(i - 1);
        }
        i -= 1;
    }
    proof {
        assert(s.take(0) =~= Seq::<ModifiedView>::empty());
    }
    None
}

fn merge_cell_into(lhs: &mut ModifiedCell, rhs: &CellRecord, plugin: &String)
    requires
        old(lhs).plugins@.len() > 0,
    ensures
        final(lhs)@ == merged_into(old(lhs)@, rhs@, plugin@),
{
    let mut is_modified = false;
    if lhs.inner.flags != rhs.flags {
        lhs.inner.flags = lhs.inner.flags | rhs.flags;
        is_modified = true;
    }
    if lhs.inner.data_flags != rhs.data_flags {
        lhs.inner.data_flags = lhs.inner.data_flags | rhs.data_flags;
        is_modified = true;
    }
    if rhs.id.as_str().unicode_len() > 0 && !crate::text::same_text(&lhs.inner.id, &rhs.id) {
        lhs.inner.id = rhs.id.clone();
        is_modified = true;
    }
    if lhs.inner.has_region || lhs.inner.has_map_color || lhs.inner.has_water_height || lhs.inner.has_atmosphere {
        is_modified = true;
    }
    let ghost before = lhs.plugins@;
    if is_modified {
        lhs.plugins.push(plugin.clone());
        proof {
            assert(lhs.plugins@.map_values(|p: String| p@) =~= before.map_values(|p: String| p@).push(plugin@));
        }
    } else {
        let last = lhs.plugins.len() - 1;
        lhs.plugins.set(last, plugin.clone());
        proof {
            assert(lhs.plugins@.map_values(|p: String| p@) =~= before.map_values(|p: String| p@).update(last as int, plugin@));
        }
    }
}

fn merge_cells_into(cells: &mut Vec<ModifiedCell>, plugins: &Vec<PluginCells>)
    requires
        has_sources(modified_views(old(cells)@)),
    ensures
        has_sources(modified_views(final(cells)@)),
        modified_views(final(cells)@) == with_plugins(modified_views(old(cells)@), plugins@),
{
    let ghost start = modified_views(cells@);
    let mut i: usize = 0;
    proof {
        assert(plugins@.take(0) =~= Seq::<PluginCells>::empty());
    }
    while i < plugins.len()
        invariant
            0 <= i <= plugins@.len(),
            has_sources(modified_views(cells@)),
            modified_views(cells@) == with_plugins(start, plugins@.take(i as int)),
        decreases plugins@.len() - i,
    {
        let plugin = &plugins[i];
        proof {
            assert(plugins@.take(i + 1).drop_last() =~= plugins@.take(i as int));
            assert(plugins@.take(i + 1).last() == plugins@[i as int]);
        }
        if !plugin.generated {
            let ghost before = modified_views(cells@);
            let ghost rs = cell_views(plugin.cells@);
            let mut j: usize = 0;
            proof {
                assert(rs.take(0) =~= Seq::<CellView>::empty());
            }
            while j < plugin.cells.len()
                invariant
                    0 <= j <= plugin.cells@.len(),
                    rs == cell_views(plugin.cells@),
                    has_sources(modified_views(cells@)),
                    modified_views(cells@) == with_cells(before, rs.take(j as int), plugin.name@),
                decreases plugin.cells@.len() - j,
            {
                let cell = &plugin.cells[j];
                proof {
                    assert(rs.take(j + 1).drop_last() =~= rs.take(j as int));
                    assert(rs.take(j + 1).last() == cell@);
                }
                let ghost cur = modified_views(cells@);
                match find_grid(cells, cell.grid) {
                    Some(k) => {
                        let mut m = cells.remove(k);
                        proof {
                            assert(m@ == cur[k as int]);
                            assert(m.plugins@.map_values(|p: String| p@).len() == m.plugins@.len());
                        }
                        merge_cell_into(&mut m, cell, &plugin.name);
                        let ghost merged = m@;
                        cells.insert(k, m);
                        proof {
                            assert(modified_views(cells@) =~= cur.update(k as int, merged));
                            assert forall|t: int| 0 <= t < modified_views(cells@).len() implies (#[trigger] modified_views(cells@)[t]).plugins.len() > 0 by {
                                if t != k {
                                    assert(modified_views(cells@)[t] == cur[t]);
                                }
                            }
                        }
                    },
                    None => {
                        let mut names: Vec<String> = Vec::new();
                        names.push(plugin.name.clone());
                        let m = ModifiedCell { inner: cell.copy(), plugins: names };
                        proof {
                            assert(m@.plugins =~= seq![plugin.name@]);
                        }
                        cells.push(m);
                        proof {
                            assert(modified_views(cells@) =~= cur.push(m@));
                            assert forall|t: int| 0 <= t < modified_views(cells@).len() implies (#[trigger] modified_views(cells@)[t]).plugins.len() > 0 by {
                                if t < cur.len() {
                                    assert(modified_views(cells@)[t] == cur[t]);
                                }
                            }
                        }
                    },
                }
                j += 1;
            }
            proof {
                assert(rs.take(plugin.cells@.len() as int) =~= rs);
            }
        }
        i += 1;
    }
    proof {
        assert(plugins@.take(plugins@.len() as int) =~= plugins@);
    }
}

/// Merges the CELL records of the masters and then of the plugins, in load order: the first
/// record of a grid position starts its merged cell, and each later record of that position
/// is merged into it. Plugins generated by this tool are skipped. The merged cells come in the
/// order in which their positions first appear.
pub fn merge_cells(masters: &Vec<PluginCells>, plugins: &Vec<PluginCells>) -> (r: Vec<ModifiedCell>)
    ensures
        modified_views(r@) == with_plugins(with_plugins(Seq::empty(), masters@), plugins@),
        has_sources(modified_views(r@)),
{
    let mut cells: Vec<ModifiedCell> = Vec::new();
    proof {
        assert(modified_views(cells@) =~= Seq::<ModifiedView>::empty());
    }
    merge_cells_into(&mut cells, masters);
    merge_cells_into(&mut cells, plugins);
    cells
}

} // verus!
