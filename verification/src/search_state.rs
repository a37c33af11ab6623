//! The live query state: the search term as typed so far and the results
//! of the last search, with the mode-aware filters the renderer reads.

use vstd::prelude::*;

verus! {

use crate::{parse_rust_asset_search, spec_parse_mode, RustAssetSearchMode};
use crate::search::{kind_matches, results_view, SearchItem, SearchItemModel, SearchResult, SearchResultModel, SearchResults};

broadcast use vstd::std_specs::vec::group_vec_axioms;

/// A result shown in the default view: a session or a file.
pub open spec fn is_display_item(m: SearchResultModel) -> bool {
    m.item is Pane || m.item is File
}

/// The default-view results: sessions and files, symbol and history
/// results filtered out.
pub open spec fn spec_display_results(s: Seq<SearchResultModel>) -> Seq<SearchResultModel> {
    s.filter(|r: SearchResultModel| is_display_item(r))
}

/// A symbol result whose kind takes part in the given mode.
pub open spec fn is_mode_item(m: SearchResultModel, mode: crate::SearchModeModel) -> bool {
    match m.item {
        SearchItemModel::RustAsset(a) => kind_matches(mode, a.type_kind),
        _ => false,
    }
}

/// The symbol-mode results: only symbols of the mode's kind.
pub open spec fn spec_mode_display_results(
    s: Seq<SearchResultModel>,
    mode: crate::SearchModeModel,
) -> Seq<SearchResultModel> {
    s.filter(|r: SearchResultModel| is_mode_item(r, mode))
}

/// The query state: the term typed so far and the latest results.
#[derive(Default)]
pub struct SearchState {
    pub search_term: String,
    pub files_panes_results: Vec<SearchResult>,
}

impl SearchState {
    /// Appends one typed character to the term.
    pub fn add_char(&mut self, ch: char)
        ensures
            final(self).search_term@ == old(self).search_term@.push(ch),
            final(self).files_panes_results == old(self).files_panes_results,
    {
        crate::text::push_char(&mut self.search_term, ch);
    }

    /// Removes the last character of the term, if there is one.
    pub fn remove_char(&mut self)
        ensures
            old(self).search_term@.len() == 0 ==> final(self).search_term@ == old(
                self,
            ).search_term@,
            old(self).search_term@.len() > 0 ==> final(self).search_term@ == old(
                self,
            ).search_term@.drop_last(),
            final(self).files_panes_results == old(self).files_panes_results,
    {
        let chars = crate::text::chars_vec(self.search_term.as_str());
        if chars.len() == 0 {
            return ;
        }
        let mut shorter: Vec<char> = Vec::new();
        let mut i: usize = 0;
        while i < chars.len() - 1
            invariant
                chars@.len() > 0,
                i <= chars@.len() - 1,
                shorter@ == chars@.subrange(0, i as int),
            decreases chars.len() - 1 - i,
        {
            shorter.push(chars[i]);
            proof {
                assert(chars@.subrange(0, i + 1 as int) =~= chars@.subrange(0, i as int).push(
                    chars@[i as int],
                ));
            }
            i = i + 1;
        }
        self.search_term = crate::text::string_from_chars(&shorter);
        proof {
            assert(chars@.subrange(0, chars@.len() - 1) =~= chars@.drop_last());
        }
    }

    /// Clears the term.
    pub fn clear(&mut self)
        ensures
            final(self).search_term@ == Seq::<char>::empty(),
            final(self).files_panes_results == old(self).files_panes_results,
    {
        self.search_term = String::new();
    }

    /// Whether the term is empty.
    pub fn is_empty(&self) -> (r: bool)
        ensures
            r == (self.search_term@.len() == 0),
    {
        self.search_term.as_str().is_empty()
    }

    /// Takes over the result lists of a fresh search.
    pub fn update_results(&mut self, results: SearchResults)
        ensures
            final(self).files_panes_results == results.files_panes_results,
            final(self).search_term == old(self).search_term,
    {
        self.files_panes_results = results.files_panes_results;
    }

    /// The raw result list of the last search.
    pub fn get_files_panes_results(&self) -> (r: &Vec<SearchResult>)
        ensures
            r == self.files_panes_results,
    {
        &self.files_panes_results
    }

    /// Filters the session and file results out of the raw list.
    fn filter_display(&self) -> (r: Vec<SearchResult>)
        ensures
            results_view(r@) == spec_display_results(results_view(self.files_panes_results@)),
    {
        let ghost all = results_view(self.files_panes_results@);
        let mut out: Vec<SearchResult> = Vec::new();
        let mut i: usize = 0;
        proof {
            reveal_with_fuel(Seq::filter, 2);
            assert(all.take(0) =~= Seq::<SearchResultModel>::empty());
            assert(results_view(out@) =~= all.take(0).filter(
                |r: SearchResultModel| is_display_item(r),
            ));
        }
        while i < self.files_panes_results.len()
            invariant
                i <= self.files_panes_results@.len(),
                all == results_view(self.files_panes_results@),
                results_view(out@) == all.take(i as int).filter(
                    |r: SearchResultModel| is_display_item(r),
                ),
            decreases self.files_panes_results@.len() - i,
        {
            proof {
                reveal_with_fuel(Seq::filter, 2);
                assert(all.take(i + 1 as int).drop_last() =~= all.take(i as int));
                assert(all.take(i + 1 as int).last() == all[i as int]);
                assert(all[i as int] == self.files_panes_results@[i as int]@);
            }
            let res = &self.files_panes_results[i];
            let keep = match &res.item {
                SearchItem::Pane(_) => true,
                SearchItem::File(_) => true,
                _ => false,
            };
            if keep {
                let ghost oprev = results_view(out@);
                out.push(res.clone());
                proof {
                    assert(results_view(out@) =~= oprev.push(all[i as int]));
                }
            }
            i = i + 1;
        }
        proof {
            assert(all.take(self.files_panes_results@.len() as int) =~= all);
        }
        out
    }

    /// How many results the default view shows: sessions and files only.
    pub fn display_count(&self) -> (r: usize)
        ensures
            r == spec_display_results(results_view(self.files_panes_results@)).len(),
    {
        let filtered = self.filter_display();
        filtered.len()
    }

    /// The default-view results: sessions and files only.
    pub fn get_display_results(&self) -> (r: Vec<SearchResult>)
        ensures
            results_view(r@) == spec_display_results(results_view(self.files_panes_results@)),
    {
        self.filter_display()
    }

    /// The current term.
    pub fn get_term(&self) -> (r: &str)
        ensures
            r@ == self.search_term@,
    {
        self.search_term.as_str()
    }

    /// Whether the current term is a symbol-kind search.
    pub fn is_rust_asset_search(&self) -> (r: bool)
        ensures
            r == (spec_parse_mode(self.search_term@) is Some),
    {
        parse_rust_asset_search(self.search_term.as_str()).is_some()
    }

    /// The symbol-kind search mode of the current term, if any.
    pub fn get_rust_asset_search_mode(&self) -> (r: Option<RustAssetSearchMode>)
        ensures
            (r is Some) == (spec_parse_mode(self.search_term@) is Some),
            r is Some ==> r.unwrap()@ == spec_parse_mode(self.search_term@).unwrap(),
    {
        parse_rust_asset_search(self.search_term.as_str())
    }

    /// Filters the symbol results of the mode's kind out of the raw list.
    fn filter_mode(&self, mode: &RustAssetSearchMode) -> (r: Vec<SearchResult>)
        ensures
            results_view(r@) == spec_mode_display_results(
                results_view(self.files_panes_results@),
                mode@,
            ),
    {
        let ghost all = results_view(self.files_panes_results@);
        let mut out: Vec<SearchResult> = Vec::new();
        let mut i: usize = 0;
        proof {
            reveal_with_fuel(Seq::filter, 2);
            assert(all.take(0) =~= Seq::<SearchResultModel>::empty());
            assert(results_view(out@) =~= all.take(0).filter(
                |r: SearchResultModel| is_mode_item(r, mode@),
            ));
        }
        while i < self.files_panes_results.len()
            invariant
                i <= self.files_panes_results@.len(),
                all == results_view(self.files_panes_results@),
                results_view(out@) == all.take(i as int).filter(
                    |r: SearchResultModel| is_mode_item(r, mode@),
                ),
            decreases self.files_panes_results@.len() - i,
        {
            proof {
                reveal_with_fuel(Seq::filter, 2);
                assert(all.take(i + 1 as int).drop_last() =~= all.take(i as int));
                assert(all.take(i + 1 as int).last() == all[i as int]);
                assert(all[i as int] == self.files_panes_results@[i as int]@);
            }
            let res = &self.files_panes_results[i];
            let keep = match &res.item {
                SearchItem::RustAsset(asset) => crate::search::mode_kind_matches(
                    mode,
                    asset.type_kind,
                ),
                _ => false,
            };
            if keep {
                let ghost oprev = results_view(out@);
                out.push(res.clone());
                proof {
                    assert(results_view(out@) =~= oprev.push(all[i as int]));
                }
            }
            i = i + 1;
        }
        proof {
            assert(all.take(self.files_panes_results@.len() as int) =~= all);
        }
        out
    }

    /// The symbol-mode results: only symbols of the current mode's kind,
    /// or nothing when no mode is active.
    pub fn get_rust_asset_display_results(&self) -> (r: Vec<SearchResult>)
        ensures
            results_view(r@) == (match spec_parse_mode(self.search_term@) {
                Some(m) => spec_mode_display_results(
                    results_view(self.files_panes_results@),
                    m,
                ),
                None => Seq::<SearchResultModel>::empty(),
            }),
    {
        match parse_rust_asset_search(self.search_term.as_str()) {
            Some(mode) => self.filter_mode(&mode),
            None => {
                let out: Vec<SearchResult> = Vec::new();
                proof {
                    assert(results_view(out@) =~= Seq::<SearchResultModel>::empty());
                }
                out
            },
        }
    }

    /// How many results a symbol-kind search shows.
    pub fn rust_asset_display_count(&self) -> (r: usize)
        ensures
            r == (match spec_parse_mode(self.search_term@) {
                Some(m) => spec_mode_display_results(
                    results_view(self.files_panes_results@),
                    m,
                ).len() as int,
                None => 0,
            }),
    {
        let filtered = self.get_rust_asset_display_results();
        proof {
            assert(filtered@.len() == results_view(filtered@).len());
        }
        filtered.len()
    }

    /// How many results the current view shows, mode-aware.
    pub fn get_current_display_count(&self) -> (r: usize)
        ensures
            r == (match spec_parse_mode(self.search_term@) {
                Some(m) => spec_mode_display_results(
                    results_view(self.files_panes_results@),
                    m,
                ).len() as int,
                None => spec_display_results(
                    results_view(self.files_panes_results@),
                ).len() as int,
            }),
    {
        if self.is_rust_asset_search() {
            self.rust_asset_display_count()
        } else {
            self.display_count()
        }
    }

    /// The results the current view shows, mode-aware.
    pub fn get_current_display_results(&self) -> (r: Vec<SearchResult>)
        ensures
            results_view(r@) == (match spec_parse_mode(self.search_term@) {
                Some(m) => spec_mode_display_results(
                    results_view(self.files_panes_results@),
                    m,
                ),
                None => spec_display_results(results_view(self.files_panes_results@)),
            }),
    {
        if self.is_rust_asset_search() {
            self.get_rust_asset_display_results()
        } else {
            self.get_display_results()
        }
    }
}

} // verus!
