//! The application's pool snapshots: panes, files, the symbol index, and
//! the current working directory.

use vstd::prelude::*;

verus! {

use crate::files::{TypeDefinition, TypeDefinitionModel};
use crate::pane::PaneMetadata;
use crate::search::assets_view;

broadcast use vstd::std_specs::vec::group_vec_axioms;

/// The views of a symbol index: path and definition list per file, in
/// index order.
pub open spec fn index_view(v: Seq<(String, Vec<TypeDefinition>)>) -> Seq<
    (Seq<char>, Seq<TypeDefinitionModel>),
> {
    v.map_values(|t: (String, Vec<TypeDefinition>)| (t.0@, assets_view(t.1@)))
}

/// All definitions of an index, flattened in index order.
pub open spec fn spec_all_assets(v: Seq<(Seq<char>, Seq<TypeDefinitionModel>)>) -> Seq<
    TypeDefinitionModel,
>
    decreases v.len(),
{
    if v.len() == 0 {
        Seq::empty()
    } else {
        v[0].1 + spec_all_assets(v.drop_first())
    }
}

/// The pool snapshots the search runs against.
#[derive(Default)]
pub struct AppState {
    pub pane_metadata: Vec<PaneMetadata>,
    pub files: Vec<String>,
    pub rust_assets: Vec<(String, Vec<TypeDefinition>)>,
    pub cwd: String,
    pub user_selected_directory: bool,
}

impl AppState {
    /// Replaces the session pool.
    pub fn update_panes(&mut self, panes: Vec<PaneMetadata>)
        ensures
            final(self).pane_metadata == panes,
            final(self).files == old(self).files,
            final(self).rust_assets == old(self).rust_assets,
            final(self).cwd == old(self).cwd,
            final(self).user_selected_directory == old(self).user_selected_directory,
    {
        self.pane_metadata = panes;
    }

    /// Replaces the file pool.
    pub fn update_files(&mut self, files: Vec<String>)
        ensures
            final(self).files == files,
            final(self).pane_metadata == old(self).pane_metadata,
            final(self).rust_assets == old(self).rust_assets,
            final(self).cwd == old(self).cwd,
            final(self).user_selected_directory == old(self).user_selected_directory,
    {
        self.files = files;
    }

    /// Replaces the symbol index.
    pub fn update_rust_assets(&mut self, rust_assets: Vec<(String, Vec<TypeDefinition>)>)
        ensures
            final(self).rust_assets == rust_assets,
            final(self).pane_metadata == old(self).pane_metadata,
            final(self).files == old(self).files,
            final(self).cwd == old(self).cwd,
            final(self).user_selected_directory == old(self).user_selected_directory,
    {
        self.rust_assets = rust_assets;
    }

    /// Sets the current working directory.
    pub fn set_cwd(&mut self, cwd: String)
        ensures
            final(self).cwd == cwd,
            final(self).pane_metadata == old(self).pane_metadata,
            final(self).files == old(self).files,
            final(self).rust_assets == old(self).rust_assets,
            final(self).user_selected_directory == old(self).user_selected_directory,
    {
        self.cwd = cwd;
    }

    /// The session pool.
    pub fn get_panes(&self) -> (r: &Vec<PaneMetadata>)
        ensures
            r == self.pane_metadata,
    {
        &self.pane_metadata
    }

    /// The file pool.
    pub fn get_files(&self) -> (r: &Vec<String>)
        ensures
            r == self.files,
    {
        &self.files
    }

    /// All indexed definitions, flattened in index order.
    pub fn get_rust_assets(&self) -> (r: Vec<TypeDefinition>)
        ensures
            assets_view(r@) == spec_all_assets(index_view(self.rust_assets@)),
    {
        let ghost iv = index_view(self.rust_assets@);
        let mut out: Vec<TypeDefinition> = Vec::new();
        let mut i: usize = 0;
        proof {
            assert(iv.skip(0) =~= iv);
            assert(assets_view(out@) + spec_all_assets(iv.skip(0)) =~= spec_all_assets(iv));
        }
        while i < self.rust_assets.len()
            invariant
                i <= self.rust_assets@.len(),
                iv == index_view(self.rust_assets@),
                assets_view(out@) + spec_all_assets(iv.skip(i as int)) == spec_all_assets(iv),
            decreases self.rust_assets@.len() - i,
        {
            let ghost rest = iv.skip(i as int);
            let ghost row = assets_view(self.rust_assets@[i as int].1@);
            proof {
                assert(rest[0] == iv[i as int]);
                assert(rest[0].1 == row);
                assert(rest.drop_first() =~= iv.skip(i + 1));
                assert(spec_all_assets(rest) == row + spec_all_assets(rest.drop_first()));
            }
            let defs = &self.rust_assets[i].1;
            let ghost before = assets_view(out@);
            let mut j: usize = 0;
            proof {
                assert(row.take(0) =~= Seq::<TypeDefinitionModel>::empty());
                assert(before + row.take(0) =~= before);
            }
            while j < defs.len()
                invariant
                    j <= defs@.len(),
                    defs@ == self.rust_assets@[i as int].1@,
                    i < self.rust_assets@.len(),
                    row == assets_view(self.rust_assets@[i as int].1@),
                    assets_view(out@) == before + row.take(j as int),
                decreases defs@.len() - j,
            {
                let ghost oprev = assets_view(out@);
                out.push(defs[j].clone());
                proof {
                    assert(assets_view(out@) =~= oprev + seq![row[j as int]]);
                    assert(row.take(j + 1 as int) =~= row.take(j as int) + seq![row[j as int]]);
                    assert((before + row.take(j as int)) + seq![row[j as int]] =~= before
                        + (row.take(j as int) + seq![row[j as int]]));
                }
                j = j + 1;
            }
            proof {
                assert(row.take(defs@.len() as int) =~= row);
                assert((before + row) + spec_all_assets(rest.drop_first()) =~= before + (row
                    + spec_all_assets(rest.drop_first())));
            }
            i = i + 1;
        }
        proof {
            assert(iv.skip(self.rust_assets@.len() as int) =~= Seq::<
                (Seq<char>, Seq<TypeDefinitionModel>),
            >::empty());
            assert(spec_all_assets(iv.skip(self.rust_assets@.len() as int)) =~= Seq::<
                TypeDefinitionModel,
            >::empty());
            assert(assets_view(out@) + Seq::<TypeDefinitionModel>::empty() =~= assets_view(out@));
        }
        out
    }

    /// The current working directory.
    pub fn get_cwd(&self) -> (r: &String)
        ensures
            r == self.cwd,
    {
        &self.cwd
    }

    /// Marks whether the directory was chosen by the user.
    pub fn set_user_selected_directory(&mut self, user_selected: bool)
        ensures
            final(self).user_selected_directory == user_selected,
            final(self).pane_metadata == old(self).pane_metadata,
            final(self).files == old(self).files,
            final(self).rust_assets == old(self).rust_assets,
            final(self).cwd == old(self).cwd,
    {
        self.user_selected_directory = user_selected;
    }

    /// Whether the directory was chosen by the user.
    pub fn is_user_selected_directory(&self) -> (r: bool)
        ensures
            r == self.user_selected_directory,
    {
        self.user_selected_directory
    }
}

} // verus!
