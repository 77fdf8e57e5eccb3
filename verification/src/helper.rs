//! The collaborator-facing facade: queries composed from the retention
//! policy and the store, configuration access, and the pure part of
//! pushing stored entries back onto the OS clipboard.

use vstd::prelude::*;
use vstd::string::StringExecFns;

use crate::config::{spec_expired_ts, spec_ttl_in_range, Config, UserConfig};
use crate::pathlist::{decode_path_list, spec_parse_path_list};
use crate::store::{opt_list_view, spec_query, spec_sorted_desc, views, Model, ModelV, Store};

verus! {

/// What a `set` call hands to the OS clipboard: either raw texts or a
/// list of file paths.
#[derive(Debug, PartialEq)]
pub enum ClipboardPayload {
    Texts(Vec<String>),
    Files(Vec<String>),
}

/// The paths a stored `path` column stands for: an encoded path list is
/// expanded, anything else is taken as one raw path.
pub open spec fn spec_expand_path(p: Seq<char>) -> Seq<Seq<char>> {
    match spec_parse_path_list(p) {
        Some(items) => items,
        None => seq![p],
    }
}

/// The paths of a row sequence, in order.
pub open spec fn spec_expand_paths(rows: Seq<ModelV>) -> Seq<Seq<char>>
    decreases rows.len(),
{
    if rows.len() == 0 {
        Seq::empty()
    } else {
        spec_expand_path(rows.first().path) + spec_expand_paths(rows.drop_first())
    }
}

/// All rows carry the same type as the first.
pub open spec fn spec_uniform_type(rows: Seq<ModelV>) -> bool {
    forall|i: int| 0 <= i < rows.len() ==> (#[trigger] rows[i]).ty == rows[0].ty
}

proof fn lemma_expand_paths_snoc(rows: Seq<ModelV>, m: ModelV)
    ensures
        spec_expand_paths(rows.push(m)) == spec_expand_paths(rows) + spec_expand_path(m.path),
    decreases rows.len(),
{
    let all = rows.push(m);
    if rows.len() == 0 {
        assert(all.first() == m);
        assert(all.drop_first() =~= Seq::<ModelV>::empty());
        assert(spec_expand_paths(all.drop_first()) =~= Seq::<Seq<char>>::empty());
        assert(spec_expand_paths(all) =~= spec_expand_paths(rows) + spec_expand_path(m.path));
    } else {
        lemma_expand_paths_snoc(rows.drop_first(), m);
        assert(all.drop_first() =~= rows.drop_first().push(m));
        assert(all.first() == rows.first());
        assert(spec_expand_paths(all) =~= spec_expand_paths(rows) + spec_expand_path(m.path));
    }
}

/// Selects the clipboard payload for a uniform batch of stored rows: the
/// raw contents for text rows, the expanded path lists for image and file
/// rows. Mixed batches, empty batches and unknown types are rejected with
/// the corresponding message.
pub fn prepare_set_payload(items: Vec<Model>) -> (r: Result<ClipboardPayload, String>)
    ensures
        ({
            let vs = views(items@);
            &&& (r is Err <==> (vs.len() == 0 || !spec_uniform_type(vs) || (vs[0].ty != 0
                && vs[0].ty != 1 && vs[0].ty != 2)))
            &&& (vs.len() > 0 && !spec_uniform_type(vs) ==> (r matches Err(e) && e@
                == "All items must have the same type"@))
            &&& ((vs.len() == 0 || (spec_uniform_type(vs) && vs.len() > 0 && vs[0].ty != 0
                && vs[0].ty != 1 && vs[0].ty != 2)) ==> (r matches Err(e) && e@
                == "Invalid type"@))
            &&& (vs.len() > 0 && spec_uniform_type(vs) && vs[0].ty == 0 ==> (r matches Ok(p)
                && p matches ClipboardPayload::Texts(t) && t.deep_view() == vs.map_values(
                |m: ModelV| m.content,
            )))
            &&& (vs.len() > 0 && spec_uniform_type(vs) && (vs[0].ty == 1 || vs[0].ty == 2) ==> (
            r matches Ok(p) && p matches ClipboardPayload::Files(f) && f.deep_view()
                == spec_expand_paths(vs)))
        }),
{
    let ghost vs = views(items@);
    let n = items.len();
    if n == 0 {
        return Err(String::from_str("Invalid type"));
    }
    let first_type = items[0].ty;
    let mut i: usize = 0;
    while i < n
        invariant
            0 <= i <= n,
            n == items@.len(),
            n > 0,
            vs == views(items@),
            first_type == vs[0].ty,
            forall|k: int| 0 <= k < i ==> (#[trigger] vs[k]).ty == vs[0].ty,
        decreases n - i,
    {
        if items[i].ty != first_type {
            proof {
                assert(vs[i as int].ty != vs[0].ty);
            }
            return Err(String::from_str("All items must have the same type"));
        }
        i = i + 1;
    }
    proof {
        assert(spec_uniform_type(vs));
    }
    if first_type == 0 {
        let mut texts: Vec<String> = Vec::new();
        let mut k: usize = 0;
        proof {
            assert(texts.deep_view() =~= vs.take(0).map_values(|m: ModelV| m.content));
        }
        while k < n
            invariant
                0 <= k <= n,
                n == items@.len(),
                vs == views(items@),
                vs.len() == n,
                texts@.len() == k,
                texts.deep_view() == vs.take(k as int).map_values(|m: ModelV| m.content),
            decreases n - k,
        {
            let c = items[k].content.clone();
            proof {
                assert(c@ == vs[k as int].content);
            }
            let ghost dv_old = texts.deep_view();
            texts.push(c);
            proof {
                assert forall|j: int| 0 <= j < texts@.len() implies texts.deep_view()[j]
                    == vs.take(k + 1).map_values(|m: ModelV| m.content)[j] by {
                    assert(vs.take(k + 1)[j] == vs[j]);
                    if j < k {
                        assert(texts.deep_view()[j] == dv_old[j]);
                        assert(dv_old[j] == vs.take(k as int).map_values(
                            |m: ModelV| m.content,
                        )[j]);
                    } else {
                        assert(texts.deep_view()[j] == c@);
                    }
                }
                assert(texts.deep_view() =~= vs.take(k + 1).map_values(|m: ModelV| m.content));
            }
            k = k + 1;
        }
        proof {
            assert(vs.take(n as int) =~= vs);
        }
        Ok(ClipboardPayload::Texts(texts))
    } else if first_type == 1 || first_type == 2 {
        let mut files: Vec<String> = Vec::new();
        let mut k: usize = 0;
        proof {
            assert(vs.take(0) =~= Seq::<ModelV>::empty());
            assert(spec_expand_paths(vs.take(0)) =~= Seq::<Seq<char>>::empty());
            assert(files.deep_view() =~= spec_expand_paths(vs.take(0)));
        }
        while k < n
            invariant
                0 <= k <= n,
                n == items@.len(),
                vs == views(items@),
                vs.len() == n,
                files.deep_view() == spec_expand_paths(vs.take(k as int)),
            decreases n - k,
        {
            let ghost dv_old = files.deep_view();
            proof {
                lemma_expand_paths_snoc(vs.take(k as int), vs[k as int]);
                assert(vs.take(k + 1) =~= vs.take(k as int).push(vs[k as int]));
            }
            match decode_path_list(items[k].path.as_str()) {
                Some(mut parts) => {
                    let ghost pv = parts.deep_view();
                    files.append(&mut parts);
                    proof {
                        assert(spec_expand_path(vs[k as int].path) == pv);
                        assert(files.deep_view() =~= dv_old + pv);
                    }
                },
                None => {
                    let ghost pv = items@[k as int].path@;
                    files.push(items[k].path.clone());
                    proof {
                        assert(spec_expand_path(vs[k as int].path) =~= seq![pv]);
                        assert(files.deep_view() =~= dv_old + seq![pv]);
                    }
                },
            }
            proof {
                assert(files.deep_view() =~= spec_expand_paths(vs.take(k + 1)));
            }
            k = k + 1;
        }
        proof {
            assert(vs.take(n as int) =~= vs);
        }
        Ok(ClipboardPayload::Files(files))
    } else {
        Err(String::from_str("Invalid type"))
    }
}

/// The query facade: the store plus the configuration that feeds the
/// retention policy.
pub struct ClipboardHelper {
    pub store: Store,
    pub config: Config,
}

impl ClipboardHelper {
    /// A helper over an empty store.
    pub fn new(config: Config) -> (r: Self)
        ensures
            r.store.wf(),
            r.store@.rows.len() == 0,
            r.config.user_config == config.user_config,
            r.config.files_path@ == config.files_path@,
    {
        ClipboardHelper { store: Store::new(), config }
    }

    /// `list`: the newest qualifying rows, up to `num`, optionally
    /// restricted by type.
    pub fn get_clipboards(&self, num: u64, type_list: Option<Vec<i32>>, now: i64) -> (r: Vec<
        Model,
    >)
        requires
            spec_ttl_in_range(self.config.user_config.expired_config, now),
        ensures
            views(r@) == spec_query(
                self.store@.rows,
                spec_expired_ts(self.config.user_config.expired_config, now),
                None,
                opt_list_view(&type_list),
                Some(num),
            ),
            spec_sorted_desc(views(r@)),
    {
        let cutoffs = self.config.get_expired_ts(now);
        self.store.get_clipboards_by_type_list(None, Some(num), type_list, cutoffs)
    }

    /// `search`: as `list`, but the lowercased content must contain
    /// `query` as supplied — a caller that does not lowercase its query
    /// will miss rows whose content differs only in case.
    pub fn search_clipboards(
        &self,
        query: &str,
        num: u64,
        type_list: Option<Vec<i32>>,
        now: i64,
    ) -> (r: Vec<Model>)
        requires
            spec_ttl_in_range(self.config.user_config.expired_config, now),
        ensures
            views(r@) == spec_query(
                self.store@.rows,
                spec_expired_ts(self.config.user_config.expired_config, now),
                Some(query@),
                opt_list_view(&type_list),
                Some(num),
            ),
            spec_sorted_desc(views(r@)),
    {
        let cutoffs = self.config.get_expired_ts(now);
        self.store.get_clipboards_by_type_list(Some(query), Some(num), type_list, cutoffs)
    }

    /// The current user configuration.
    pub fn get_user_config(&self) -> (r: UserConfig)
        ensures
            r == self.config.user_config,
    {
        self.config.user_config
    }

    /// Replaces the user configuration; the store is untouched. Writing
    /// the configuration file is the caller's concern.
    pub fn set_user_config(&mut self, user_config: UserConfig)
        ensures
            final(self).config.user_config == user_config,
            final(self).store == old(self).store,
            final(self).config.db_path == old(self).config.db_path,
            final(self).config.files_path == old(self).config.files_path,
            final(self).config.logs_path == old(self).config.logs_path,
    {
        self.config.user_config = user_config;
    }
}

} // verus!
