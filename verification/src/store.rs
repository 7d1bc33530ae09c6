//! The plugin and execution tables.
//!
//! Both tables live in memory behind their repository types; the uniqueness
//! of their keys is an invariant every operation preserves.

use vstd::prelude::*;
use vstd::string::*;
use vstd::multiset::Multiset;
use crate::errors::{AppError, AppResult, validation_error};
use crate::models::{Execution, ExecutionPhase, ExecutionStatus, ExecutionV, Plugin, PluginV};
use crate::text::str_eq;

verus! {

/// No two rows share an external plugin id.
pub open spec fn plugins_unique(s: Seq<PluginV>) -> bool {
    forall|i: int, j: int|
        0 <= i < j < s.len() ==> (#[trigger] s[i]).plugin_id != (#[trigger] s[j]).plugin_id
}

/// Newest first: creation stamps never increase along the listing.
pub open spec fn plugins_sorted(s: Seq<PluginV>) -> bool {
    forall|i: int, j: int|
        0 <= i < j < s.len() ==> (#[trigger] s[i]).created_at >= (#[trigger] s[j]).created_at
}

/// Newest first: start stamps never increase along the listing.
pub open spec fn execs_sorted(s: Seq<ExecutionV>) -> bool {
    forall|i: int, j: int|
        0 <= i < j < s.len() ==> (#[trigger] s[i]).started_at >= (#[trigger] s[j]).started_at
}

/// A row with the given external id exists.
pub open spec fn has_plugin(s: Seq<PluginV>, id: Seq<char>) -> bool {
    exists|i: int| 0 <= i < s.len() && (#[trigger] s[i]).plugin_id == id
}

/// The table of installed plugins, keyed by `plugin_id`.
pub struct PluginRepository {
    rows: Vec<Plugin>,
}

impl View for PluginRepository {
    type V = Seq<PluginV>;

    closed spec fn view(&self) -> Seq<PluginV> {
        self.rows@.map_values(|p: Plugin| p@)
    }
}

impl PluginRepository {
    /// The table keeps its key unique.
    pub open spec fn wf(&self) -> bool {
        plugins_unique(self@)
    }

    /// An empty table.
    pub fn new() -> (r: PluginRepository)
        ensures
            r@ == Seq::<PluginV>::empty(),
            r.wf(),
    {
        let r = PluginRepository { rows: Vec::new() };
        proof {
            assert(r@ =~= Seq::<PluginV>::empty());
        }
        r
    }

    /// Every installed plugin, newest first by creation stamp.
    pub fn list(&self) -> (r: Vec<Plugin>)
        ensures
            r@.map_values(|p: Plugin| p@).to_multiset() == self@.to_multiset(),
            plugins_sorted(r@.map_values(|p: Plugin| p@)),
    {
        let mut work: Vec<Plugin> = Vec::new();
        let mut i: usize = 0;
        while i < self.rows.len()
            invariant
                i <= self.rows@.len(),
                work@.len() == i,
                forall|j: int| 0 <= j < i ==> (#[trigger] work@[j])@ == self.rows@[j]@,
            decreases self.rows@.len() - i,
        {
            work.push(self.rows[i].duplicate());
            i = i + 1;
        }
        proof {
            assert(work@.map_values(|p: Plugin| p@) =~= self@);
        }
        sort_plugins_newest_first(work)
    }

    /// Fetches one plugin; `PluginNotFound` exactly when no row has the id.
    pub fn get(&self, id: &str) -> (r: AppResult<Plugin>)
        ensures
            r is Ok <==> has_plugin(self@, id@),
            r matches Ok(p) ==> exists|i: int|
                0 <= i < self@.len() && (#[trigger] self@[i]).plugin_id == id@ && p@ == self@[i],
            r matches Err(e) ==> (e matches AppError::PluginNotFound(n) && n@ == id@),
    {
        let mut i: usize = 0;
        while i < self.rows.len()
            invariant
                i <= self.rows@.len(),
                forall|j: int| 0 <= j < i ==> (#[trigger] self@[j]).plugin_id != id@,
                self@.len() == self.rows@.len(),
            decreases self.rows@.len() - i,
        {
            if str_eq(self.rows[i].plugin_id.as_str(), id) {
                let p = self.rows[i].duplicate();
                proof {
                    assert(self@[i as int] == self.rows@[i as int]@);
                    assert(self@[i as int].plugin_id == id@);
                }
                return Ok(p);
            }
            proof {
                assert(self@[i as int] == self.rows@[i as int]@);
            }
            i = i + 1;
        }
        proof {
            if has_plugin(self@, id@) {
                let j = choose|j: int|
                    0 <= j < self@.len() && (#[trigger] self@[j]).plugin_id == id@;
                assert(false);
            }
        }
        Err(AppError::PluginNotFound(String::from_str(id)))
    }

    /// Fetches one plugin by display name; the first match wins.
    pub fn get_by_name(&self, name: &str) -> (r: AppResult<Plugin>)
        ensures
            r is Ok <==> exists|i: int|
                0 <= i < self@.len() && (#[trigger] self@[i]).name == name@,
            r matches Ok(p) ==> exists|i: int|
                0 <= i < self@.len() && (#[trigger] self@[i]).name == name@ && p@ == self@[i],
            r matches Err(e) ==> (e matches AppError::PluginNotFound(n) && n@ == name@),
    {
        let mut i: usize = 0;
        while i < self.rows.len()
            invariant
                i <= self.rows@.len(),
                forall|j: int| 0 <= j < i ==> (#[trigger] self@[j]).name != name@,
                self@.len() == self.rows@.len(),
            decreases self.rows@.len() - i,
        {
            if str_eq(self.rows[i].name.as_str(), name) {
                let p = self.rows[i].duplicate();
                proof {
                    assert(self@[i as int] == self.rows@[i as int]@);
                }
                return Ok(p);
            }
            proof {
                assert(self@[i as int] == self.rows@[i as int]@);
            }
            i = i + 1;
        }
        proof {
            if exists|i: int| 0 <= i < self@.len() && (#[trigger] self@[i]).name == name@ {
                let j = choose|j: int| 0 <= j < self@.len() && (#[trigger] self@[j]).name == name@;
                assert(false);
            }
        }
        Err(AppError::PluginNotFound(String::from_str(name)))
    }

    /// Inserts a new row; `PluginAlreadyExists` exactly when the id is taken.
    pub fn create(&mut self, plugin: &Plugin) -> (r: AppResult<()>)
        requires
            old(self).wf(),
        ensures
            final(self).wf(),
            r is Ok <==> !has_plugin(old(self)@, plugin.plugin_id@),
            r is Ok ==> final(self)@ == old(self)@.push(plugin@),
            r is Err ==> final(self)@ == old(self)@,
            r matches Err(e) ==> (e matches AppError::PluginAlreadyExists(n) && n@
                == plugin.plugin_id@),
    {
        let mut i: usize = 0;
        while i < self.rows.len()
            invariant
                i <= self.rows@.len(),
                forall|j: int| 0 <= j < i ==> (#[trigger] self@[j]).plugin_id != plugin.plugin_id@,
                self@.len() == self.rows@.len(),
            decreases self.rows@.len() - i,
        {
            if self.rows[i].plugin_id == plugin.plugin_id {
                proof {
                    assert(self@[i as int] == self.rows@[i as int]@);
                }
                return Err(AppError::PluginAlreadyExists(plugin.plugin_id.clone()));
            }
            proof {
                assert(self@[i as int] == self.rows@[i as int]@);
            }
            i = i + 1;
        }
        let ghost pre = self@;
        self.rows.push(plugin.duplicate());
        proof {
            assert(self@ =~= pre.push(plugin@));
            if has_plugin(pre, plugin.plugin_id@) {
                let j = choose|j: int|
                    0 <= j < pre.len() && (#[trigger] pre[j]).plugin_id == plugin.plugin_id@;
                assert(false);
            }
            assert forall|a: int, b: int|
                0 <= a < b < self@.len() implies (#[trigger] self@[a]).plugin_id != (
            #[trigger] self@[b]).plugin_id by {
                if b == self@.len() - 1 {
                    assert(self@[a] == pre[a]);
                }
            }
        }
        Ok(())
    }

    /// Replaces the row with the plugin's external id, bumping `updated_at`.
    pub fn update(&mut self, plugin: &Plugin, now: i64) -> (r: AppResult<()>)
        requires
            old(self).wf(),
        ensures
            final(self).wf(),
            r is Ok <==> has_plugin(old(self)@, plugin.plugin_id@),
            r is Ok ==> exists|i: int|
                0 <= i < old(self)@.len() && (#[trigger] old(self)@[i]).plugin_id
                    == plugin.plugin_id@ && final(self)@ == old(self)@.update(
                    i,
                    PluginV { updated_at: now, ..plugin@ },
                ),
            r is Err ==> final(self)@ == old(self)@,
            r matches Err(e) ==> e matches AppError::PluginNotFound(_),
    {
        let ghost pre = self@;
        let mut i: usize = 0;
        while i < self.rows.len()
            invariant
                i <= self.rows@.len(),
                forall|j: int| 0 <= j < i ==> (#[trigger] self@[j]).plugin_id != plugin.plugin_id@,
                self@.len() == self.rows@.len(),
                self@ == pre,
                old(self).wf(),
                self.wf(),
            decreases self.rows@.len() - i,
        {
            if self.rows[i].plugin_id == plugin.plugin_id {
                proof {
                    assert(self@[i as int] == self.rows@[i as int]@);
                }
                let mut replacement = plugin.duplicate();
                replacement.updated_at = now;
                self.rows.set(i, replacement);
                proof {
                    assert(self@ =~= pre.update(i as int, PluginV { updated_at: now, ..plugin@ }));
                    assert forall|a: int, b: int|
                        0 <= a < b < self@.len() implies (#[trigger] self@[a]).plugin_id != (
                    #[trigger] self@[b]).plugin_id by {
                        assert(pre[a].plugin_id != pre[b].plugin_id);
                        if a != i && b != i {
                            assert(self@[a] == pre[a] && self@[b] == pre[b]);
                        } else if a == i {
                            assert(self@[b] == pre[b]);
                            assert(pre[i as int].plugin_id == plugin.plugin_id@);
                        } else {
                            assert(self@[a] == pre[a]);
                            assert(pre[i as int].plugin_id == plugin.plugin_id@);
                        }
                    }
                }
                return Ok(());
            }
            proof {
                assert(self@[i as int] == self.rows@[i as int]@);
            }
            i = i + 1;
        }
        proof {
            if has_plugin(self@, plugin.plugin_id@) {
                let j = choose|j: int|
                    0 <= j < self@.len() && (#[trigger] self@[j]).plugin_id == plugin.plugin_id@;
                assert(false);
            }
        }
        Err(AppError::PluginNotFound(plugin.plugin_id.clone()))
    }

    /// Deletes the row with the given id; `PluginNotFound` exactly when the
    /// table has none. Deleting twice therefore fails the second time.
    pub fn delete(&mut self, id: &str) -> (r: AppResult<()>)
        requires
            old(self).wf(),
        ensures
            final(self).wf(),
            r is Ok <==> has_plugin(old(self)@, id@),
            r is Ok ==> exists|i: int|
                0 <= i < old(self)@.len() && (#[trigger] old(self)@[i]).plugin_id == id@
                    && final(self)@ == old(self)@.remove(i),
            r is Ok ==> !has_plugin(final(self)@, id@),
            r is Err ==> final(self)@ == old(self)@,
            r matches Err(e) ==> (e matches AppError::PluginNotFound(n) && n@ == id@),
    {
        let ghost pre = self@;
        let mut i: usize = 0;
        while i < self.rows.len()
            invariant
                i <= self.rows@.len(),
                forall|j: int| 0 <= j < i ==> (#[trigger] self@[j]).plugin_id != id@,
                self@.len() == self.rows@.len(),
                self@ == pre,
                old(self).wf(),
                self.wf(),
            decreases self.rows@.len() - i,
        {
            if str_eq(self.rows[i].plugin_id.as_str(), id) {
                proof {
                    assert(self@[i as int] == self.rows@[i as int]@);
                }
                self.rows.remove(i);
                proof {
                    assert(self@ =~= pre.remove(i as int));
                    assert forall|a: int, b: int|
                        0 <= a < b < self@.len() implies (#[trigger] self@[a]).plugin_id != (
                    #[trigger] self@[b]).plugin_id by {
                        let a0: int = if a < i {
                            a
                        } else {
                            a + 1
                        };
                        let b0: int = if b < i {
                            b
                        } else {
                            b + 1
                        };
                        assert(self@[a] == pre[a0] && self@[b] == pre[b0]);
                        assert(pre[a0].plugin_id != pre[b0].plugin_id);
                    }
                    assert forall|j: int|
                        0 <= j < self@.len() implies (#[trigger] self@[j]).plugin_id != id@ by {
                        let j0: int = if j < i {
                            j
                        } else {
                            j + 1
                        };
                        assert(self@[j] == pre[j0]);
                        if j0 != i {
                            assert(pre[j0].plugin_id != pre[i as int].plugin_id);
                        }
                    }
                }
                return Ok(());
            }
            proof {
                assert(self@[i as int] == self.rows@[i as int]@);
            }
            i = i + 1;
        }
        proof {
            if has_plugin(self@, id@) {
                let j = choose|j: int|
                    0 <= j < self@.len() && (#[trigger] self@[j]).plugin_id == id@;
                assert(false);
            }
        }
        Err(AppError::PluginNotFound(String::from_str(id)))
    }

    /// Sets the enabled bit. A row already in the requested state is left
    /// untouched, so repeating the call changes nothing; a missing id is not
    /// an error.
    pub fn update_enabled(&mut self, id: &str, enabled: bool, now: i64) -> (r: AppResult<()>)
        requires
            old(self).wf(),
        ensures
            final(self).wf(),
            r is Ok,
            !has_plugin(old(self)@, id@) ==> final(self)@ == old(self)@,
            forall|i: int|
                0 <= i < old(self)@.len() && (#[trigger] old(self)@[i]).plugin_id == id@ ==> (if (
                old(self)@[i].enabled == enabled) {
                    final(self)@ == old(self)@
                } else {
                    final(self)@ == old(self)@.update(
                        i,
                        PluginV { enabled, updated_at: now, ..old(self)@[i] },
                    )
                }),
    {
        let ghost pre = self@;
        let mut i: usize = 0;
        while i < self.rows.len()
            invariant
                i <= self.rows@.len(),
                forall|j: int| 0 <= j < i ==> (#[trigger] self@[j]).plugin_id != id@,
                self@.len() == self.rows@.len(),
                self@ == pre,
                old(self).wf(),
                self.wf(),
            decreases self.rows@.len() - i,
        {
            if str_eq(self.rows[i].plugin_id.as_str(), id) {
                proof {
                    assert(self@[i as int] == self.rows@[i as int]@);
                }
                if self.rows[i].enabled == enabled {
                    proof {
                        lemma_unique_plugin_index(pre, i as int, id@);
                    }
                    return Ok(());
                }
                let mut replacement = self.rows[i].duplicate();
                replacement.enabled = enabled;
                replacement.updated_at = now;
                self.rows.set(i, replacement);
                proof {
                    assert(self@ =~= pre.update(
                        i as int,
                        PluginV { enabled, updated_at: now, ..pre[i as int] },
                    ));
                    lemma_unique_plugin_index(pre, i as int, id@);
                    assert forall|a: int, b: int|
                        0 <= a < b < self@.len() implies (#[trigger] self@[a]).plugin_id != (
                    #[trigger] self@[b]).plugin_id by {
                        assert(pre[a].plugin_id != pre[b].plugin_id);
                        if a != i {
                            assert(self@[a] == pre[a]);
                        }
                        if b != i {
                            assert(self@[b] == pre[b]);
                        }
                    }
                }
                return Ok(());
            }
            proof {
                assert(self@[i as int] == self.rows@[i as int]@);
            }
            i = i + 1;
        }
        proof {
            if has_plugin(self@, id@) {
                let j = choose|j: int|
                    0 <= j < self@.len() && (#[trigger] self@[j]).plugin_id == id@;
                assert(false);
            }
        }
        Ok(())
    }
}

/// Two rows matching one plugin id are the same row.
pub proof fn lemma_unique_plugin_match(s: Seq<PluginV>, id: Seq<char>)
    requires
        plugins_unique(s),
    ensures
        forall|i: int, j: int|
            0 <= i < s.len() && 0 <= j < s.len() && (#[trigger] s[i]).plugin_id == id && (
            #[trigger] s[j]).plugin_id == id ==> i == j,
{
    assert forall|i: int, j: int|
        0 <= i < s.len() && 0 <= j < s.len() && (#[trigger] s[i]).plugin_id == id && (
    #[trigger] s[j]).plugin_id == id implies i == j by {
        if i < j {
            assert(s[i].plugin_id != s[j].plugin_id);
        } else if j < i {
            assert(s[j].plugin_id != s[i].plugin_id);
        }
    }
}

/// In a table with unique ids, a match at one index is the only match.
proof fn lemma_unique_plugin_index(s: Seq<PluginV>, i: int, id: Seq<char>)
    requires
        plugins_unique(s),
        0 <= i < s.len(),
        s[i].plugin_id == id,
    ensures
        forall|j: int| 0 <= j < s.len() && (#[trigger] s[j]).plugin_id == id ==> j == i,
{
    assert forall|j: int|
        0 <= j < s.len() && (#[trigger] s[j]).plugin_id == id implies j == i by {
        if j < i {
            assert(s[j].plugin_id != s[i].plugin_id);
        } else if j > i {
            assert(s[i].plugin_id != s[j].plugin_id);
        }
    }
}

/// The preview time-to-live, in milliseconds.
pub const PREVIEW_TTL_MS: i64 = 600000;

/// No two rows share an execution id.
pub open spec fn execs_unique(s: Seq<ExecutionV>) -> bool {
    forall|i: int, j: int| 0 <= i < j < s.len() ==> (#[trigger] s[i]).id != (#[trigger] s[j]).id
}

/// A row with the given id exists.
pub open spec fn has_exec(s: Seq<ExecutionV>, id: Seq<char>) -> bool {
    exists|i: int| 0 <= i < s.len() && (#[trigger] s[i]).id == id
}

/// What holds of every row whose preview is ready: it is still in the
/// prepare phase, carries a confirm token, and expires exactly one TTL after
/// the supervisor finished.
pub open spec fn preview_row_wf(e: ExecutionV) -> bool {
    e.status == ExecutionStatus::PreviewReady ==> {
        &&& e.phase == ExecutionPhase::Prepare
        &&& e.confirm_token is Some
        &&& e.finished_at matches Some(f) && e.expires_at == Some((f + PREVIEW_TTL_MS) as i64)
            && f + PREVIEW_TTL_MS <= i64::MAX
    }
}

pub open spec fn previews_wf(s: Seq<ExecutionV>) -> bool {
    forall|i: int| 0 <= i < s.len() ==> preview_row_wf(#[trigger] s[i])
}

/// The table of execution records, keyed by execution id.
pub struct ExecutionRepository {
    rows: Vec<Execution>,
}

impl View for ExecutionRepository {
    type V = Seq<ExecutionV>;

    closed spec fn view(&self) -> Seq<ExecutionV> {
        self.rows@.map_values(|e: Execution| e@)
    }
}

/// The rows of `s` recorded for the given plugin, in stored order.
pub open spec fn execs_for(s: Seq<ExecutionV>, pid: Seq<char>) -> Seq<ExecutionV>
    decreases s.len(),
{
    if s.len() == 0 {
        Seq::empty()
    } else {
        let rest = execs_for(s.subrange(1, s.len() as int), pid);
        if s[0].plugin_id == pid {
            seq![s[0]] + rest
        } else {
            rest
        }
    }
}

proof fn lemma_execs_for_snoc(s: Seq<ExecutionV>, i: int, pid: Seq<char>)
    requires
        0 <= i < s.len(),
    ensures
        execs_for(s.subrange(0, i + 1), pid) == (if s[i].plugin_id == pid {
            execs_for(s.subrange(0, i), pid).push(s[i])
        } else {
            execs_for(s.subrange(0, i), pid)
        }),
    decreases i,
{
    if i == 0 {
        assert(s.subrange(0, 1) =~= seq![s[0]]);
        assert(seq![s[0]].subrange(1, 1) =~= Seq::<ExecutionV>::empty());
        assert(execs_for(Seq::<ExecutionV>::empty(), pid) =~= Seq::<ExecutionV>::empty());
        assert(s.subrange(0, 0) =~= Seq::<ExecutionV>::empty());
        if s[0].plugin_id == pid {
            assert(execs_for(s.subrange(0, 1), pid) =~= seq![s[0]]);
            assert(execs_for(s.subrange(0, 0), pid).push(s[0]) =~= seq![s[0]]);
        }
    } else {
        let t = s.subrange(1, s.len() as int);
        lemma_execs_for_snoc(t, i - 1, pid);
        assert(s.subrange(0, i + 1)[0] == s[0]);
        assert(s.subrange(0, i + 1).subrange(1, i + 1) =~= t.subrange(0, i));
        assert(s.subrange(0, i).subrange(1, i) =~= t.subrange(0, i - 1));
        assert(s.subrange(0, i)[0] == s[0]);
        assert(t[i - 1] == s[i]);
    }
}

impl ExecutionRepository {
    /// Unique ids, and every ready preview in good standing.
    pub open spec fn wf(&self) -> bool {
        execs_unique(self@) && previews_wf(self@)
    }

    /// An empty table.
    pub fn new() -> (r: ExecutionRepository)
        ensures
            r@ == Seq::<ExecutionV>::empty(),
            r.wf(),
    {
        let r = ExecutionRepository { rows: Vec::new() };
        proof {
            assert(r@ =~= Seq::<ExecutionV>::empty());
        }
        r
    }

    /// Creates a fresh pending record for the given plugin and phase.
    pub fn create_with_phase(&mut self, plugin_id: &str, phase: ExecutionPhase, id: String, now: i64) -> (r:
        AppResult<Execution>)
        requires
            old(self).wf(),
        ensures
            final(self).wf(),
            r is Ok <==> !has_exec(old(self)@, id@),
            r matches Ok(e) ==> {
                &&& final(self)@ == old(self)@.push(e@)
                &&& e@.id == id@
                &&& e@.plugin_id == plugin_id@
                &&& e@.phase == phase
                &&& e@.status == ExecutionStatus::Pending
                &&& e@.pid is None && e@.exit_code is None && e@.stdout is None && e@.stderr
                    is None
                &&& e@.preview_payload is None && e@.confirm_token is None && e@.expires_at
                    is None
                &&& e@.started_at == now && e@.finished_at is None
            },
            r is Err ==> final(self)@ == old(self)@,
            r matches Err(e) ==> e is Execution,
    {
        let mut i: usize = 0;
        while i < self.rows.len()
            invariant
                i <= self.rows@.len(),
                forall|j: int| 0 <= j < i ==> (#[trigger] self@[j]).id != id@,
                self@.len() == self.rows@.len(),
            decreases self.rows@.len() - i,
        {
            if self.rows[i].id == id {
                proof {
                    assert(self@[i as int] == self.rows@[i as int]@);
                }
                return Err(validation_error("Execution id is already in use"));
            }
            proof {
                assert(self@[i as int] == self.rows@[i as int]@);
            }
            i = i + 1;
        }
        proof {
            if has_exec(self@, id@) {
                let j = choose|j: int| 0 <= j < self@.len() && (#[trigger] self@[j]).id == id@;
                assert(false);
            }
        }
        let e = Execution {
            id,
            plugin_id: String::from_str(plugin_id),
            phase,
            status: ExecutionStatus::Pending,
            pid: None,
            exit_code: None,
            stdout: None,
            stderr: None,
            preview_payload: None,
            confirm_token: None,
            expires_at: None,
            started_at: now,
            finished_at: None,
        };
        let ghost pre = self@;
        self.rows.push(e.duplicate());
        proof {
            assert(self@ =~= pre.push(e@));
            assert forall|a: int, b: int|
                0 <= a < b < self@.len() implies (#[trigger] self@[a]).id != (
            #[trigger] self@[b]).id by {
                if b == self@.len() - 1 {
                    assert(self@[a] == pre[a]);
                }
            }
            assert forall|x: int| 0 <= x < self@.len() implies preview_row_wf(
                #[trigger] self@[x],
            ) by {
                if x < pre.len() {
                    assert(self@[x] == pre[x]);
                }
            }
        }
        Ok(e)
    }

    /// Fetches one record; `ExecutionNotFound` exactly when no row has the id.
    pub fn get(&self, id: &str) -> (r: AppResult<Execution>)
        ensures
            r is Ok <==> has_exec(self@, id@),
            r matches Ok(e) ==> exists|i: int|
                0 <= i < self@.len() && (#[trigger] self@[i]).id == id@ && e@ == self@[i],
            r matches Err(e) ==> (e matches AppError::ExecutionNotFound(n) && n@ == id@),
    {
        let mut i: usize = 0;
        while i < self.rows.len()
            invariant
                i <= self.rows@.len(),
                forall|j: int| 0 <= j < i ==> (#[trigger] self@[j]).id != id@,
                self@.len() == self.rows@.len(),
            decreases self.rows@.len() - i,
        {
            if str_eq(self.rows[i].id.as_str(), id) {
                let e = self.rows[i].duplicate();
                proof {
                    assert(self@[i as int] == self.rows@[i as int]@);
                }
                return Ok(e);
            }
            proof {
                assert(self@[i as int] == self.rows@[i as int]@);
            }
            i = i + 1;
        }
        proof {
            if has_exec(self@, id@) {
                let j = choose|j: int| 0 <= j < self@.len() && (#[trigger] self@[j]).id == id@;
                assert(false);
            }
        }
        Err(AppError::ExecutionNotFound(String::from_str(id)))
    }

    /// Every record of one plugin, newest first by start stamp.
    pub fn list_by_plugin(&self, plugin_id: &str) -> (r: Vec<Execution>)
        ensures
            r@.map_values(|e: Execution| e@).to_multiset() == execs_for(
                self@,
                plugin_id@,
            ).to_multiset(),
            execs_sorted(r@.map_values(|e: Execution| e@)),
    {
        let mut work: Vec<Execution> = Vec::new();
        proof {
            assert(self@.subrange(0, 0) =~= Seq::<ExecutionV>::empty());
            assert(execs_for(self@.subrange(0, 0), plugin_id@) =~= Seq::<ExecutionV>::empty());
            assert(work@.map_values(|e: Execution| e@) =~= Seq::<ExecutionV>::empty());
        }
        let mut i: usize = 0;
        while i < self.rows.len()
            invariant
                i <= self.rows@.len(),
                self@.len() == self.rows@.len(),
                work@.map_values(|e: Execution| e@) == execs_for(
                    self@.subrange(0, i as int),
                    plugin_id@,
                ),
            decreases self.rows@.len() - i,
        {
            proof {
                assert(self@[i as int] == self.rows@[i as int]@);
                lemma_execs_for_snoc(self@, i as int, plugin_id@);
            }
            if str_eq(self.rows[i].plugin_id.as_str(), plugin_id) {
                let ghost prework = work@;
                work.push(self.rows[i].duplicate());
                proof {
                    assert(work@.map_values(|e: Execution| e@) =~= prework.map_values(
                        |e: Execution| e@,
                    ).push(self@[i as int]));
                }
            }
            i = i + 1;
        }
        proof {
            assert(self@.subrange(0, self@.len() as int) =~= self@);
        }
        sort_execs_newest_first(work)
    }

    /// Every record, newest first by start stamp.
    pub fn list_all(&self) -> (r: Vec<Execution>)
        ensures
            r@.map_values(|e: Execution| e@).to_multiset() == self@.to_multiset(),
            execs_sorted(r@.map_values(|e: Execution| e@)),
    {
        let mut work: Vec<Execution> = Vec::new();
        let mut i: usize = 0;
        while i < self.rows.len()
            invariant
                i <= self.rows@.len(),
                work@.len() == i,
                forall|j: int| 0 <= j < i ==> (#[trigger] work@[j])@ == self.rows@[j]@,
            decreases self.rows@.len() - i,
        {
            work.push(self.rows[i].duplicate());
            i = i + 1;
        }
        proof {
            assert(work@.map_values(|e: Execution| e@) =~= self@);
        }
        sort_execs_newest_first(work)
    }

    /// Records the child's pid and marks the row running. A missing id is
    /// not an error.
    pub fn update_pid(&mut self, id: &str, pid: u32) -> (r: AppResult<()>)
        requires
            old(self).wf(),
            pid <= i32::MAX,
        ensures
            final(self).wf(),
            r is Ok,
            !has_exec(old(self)@, id@) ==> final(self)@ == old(self)@,
            forall|i: int|
                0 <= i < old(self)@.len() && (#[trigger] old(self)@[i]).id == id@ ==> final(self)@ == old(self)@.update(
                    i,
                    ExecutionV {
                        pid: Some(pid as i32),
                        status: ExecutionStatus::Running,
                        ..old(self)@[i]
                    },
                ),
    {
        let ghost pre = self@;
        let mut i: usize = 0;
        while i < self.rows.len()
            invariant
                i <= self.rows@.len(),
                forall|j: int| 0 <= j < i ==> (#[trigger] self@[j]).id != id@,
                self@.len() == self.rows@.len(),
                self@ == pre,
            decreases self.rows@.len() - i,
        {
            if str_eq(self.rows[i].id.as_str(), id) {
                proof {
                    assert(self@[i as int] == self.rows@[i as int]@);
                }
                let mut replacement = self.rows[i].duplicate();
                replacement.pid = Some(pid as i32);
                replacement.status = ExecutionStatus::Running;
                self.rows.set(i, replacement);
                proof {
                    assert(self@ =~= pre.update(
                        i as int,
                        ExecutionV {
                            pid: Some(pid as i32),
                            status: ExecutionStatus::Running,
                            ..pre[i as int]
                        },
                    ));
                    lemma_unique_exec_index(pre, i as int, id@);
                    lemma_exec_update_wf(
                        pre,
                        self@,
                        i as int,
                    );
                }
                return Ok(());
            }
            proof {
                assert(self@[i as int] == self.rows@[i as int]@);
            }
            i = i + 1;
        }
        proof {
            if has_exec(self@, id@) {
                let j = choose|j: int| 0 <= j < self@.len() && (#[trigger] self@[j]).id == id@;
                assert(false);
            }
        }
        Ok(())
    }

    /// Writes the captured output and a terminal (or running) status, closing
    /// the record. `PreviewReady` is reserved for `mark_preview_ready`.
    pub fn update_result(
        &mut self,
        id: &str,
        stdout: Option<String>,
        stderr: Option<String>,
        exit_code: Option<i32>,
        status: ExecutionStatus,
        now: i64,
    ) -> (r: AppResult<()>)
        requires
            old(self).wf(),
            status != ExecutionStatus::PreviewReady,
        ensures
            final(self).wf(),
            r is Ok,
            !has_exec(old(self)@, id@) ==> final(self)@ == old(self)@,
            forall|i: int|
                0 <= i < old(self)@.len() && (#[trigger] old(self)@[i]).id == id@ ==> final(self)@ == old(self)@.update(
                    i,
                    ExecutionV {
                        stdout: crate::models::opt_view(stdout),
                        stderr: crate::models::opt_view(stderr),
                        exit_code,
                        status,
                        finished_at: Some(now),
                        ..old(self)@[i]
                    },
                ),
    {
        let ghost pre = self@;
        let mut i: usize = 0;
        while i < self.rows.len()
            invariant
                i <= self.rows@.len(),
                forall|j: int| 0 <= j < i ==> (#[trigger] self@[j]).id != id@,
                self@.len() == self.rows@.len(),
                self@ == pre,
            decreases self.rows@.len() - i,
        {
            if str_eq(self.rows[i].id.as_str(), id) {
                proof {
                    assert(self@[i as int] == self.rows@[i as int]@);
                }
                let mut replacement = self.rows[i].duplicate();
                replacement.stdout = stdout;
                replacement.stderr = stderr;
                replacement.exit_code = exit_code;
                replacement.status = status;
                replacement.finished_at = Some(now);
                self.rows.set(i, replacement);
                proof {
                    assert(self@ =~= pre.update(i as int, self@[i as int]));
                    lemma_unique_exec_index(pre, i as int, id@);
                    lemma_exec_update_wf(pre, self@, i as int);
                }
                return Ok(());
            }
            proof {
                assert(self@[i as int] == self.rows@[i as int]@);
            }
            i = i + 1;
        }
        proof {
            if has_exec(self@, id@) {
                let j = choose|j: int| 0 <= j < self@.len() && (#[trigger] self@[j]).id == id@;
                assert(false);
            }
        }
        Ok(())
    }

    /// Closes a successful prepare: stores the captured output, keeps the
    /// stdout as the preview payload, issues the confirm token, and stamps an
    /// expiry exactly one TTL after `now`.
    pub fn mark_preview_ready(
        &mut self,
        id: &str,
        stdout: Option<String>,
        stderr: Option<String>,
        exit_code: Option<i32>,
        confirm_token: String,
        now: i64,
    ) -> (r: AppResult<()>)
        requires
            old(self).wf(),
            now + PREVIEW_TTL_MS <= i64::MAX,
            forall|i: int|
                0 <= i < old(self)@.len() && (#[trigger] old(self)@[i]).id == id@ ==> old(
                    self,
                )@[i].phase == ExecutionPhase::Prepare,
        ensures
            final(self).wf(),
            r is Ok,
            !has_exec(old(self)@, id@) ==> final(self)@ == old(self)@,
            forall|i: int|
                0 <= i < old(self)@.len() && (#[trigger] old(self)@[i]).id == id@ ==> final(self)@ == old(self)@.update(
                    i,
                    ExecutionV {
                        stdout: crate::models::opt_view(stdout),
                        stderr: crate::models::opt_view(stderr),
                        exit_code,
                        status: ExecutionStatus::PreviewReady,
                        finished_at: Some(now),
                        preview_payload: crate::models::opt_view(stdout),
                        confirm_token: Some(confirm_token@),
                        expires_at: Some((now + PREVIEW_TTL_MS) as i64),
                        ..old(self)@[i]
                    },
                ),
    {
        let ghost pre = self@;
        let mut i: usize = 0;
        while i < self.rows.len()
            invariant
                i <= self.rows@.len(),
                forall|j: int| 0 <= j < i ==> (#[trigger] self@[j]).id != id@,
                self@.len() == self.rows@.len(),
                self@ == pre,
            decreases self.rows@.len() - i,
        {
            if str_eq(self.rows[i].id.as_str(), id) {
                proof {
                    assert(self@[i as int] == self.rows@[i as int]@);
                }
                let mut replacement = self.rows[i].duplicate();
                replacement.stdout = clone_opt(&stdout);
                replacement.stderr = stderr;
                replacement.exit_code = exit_code;
                replacement.status = ExecutionStatus::PreviewReady;
                replacement.finished_at = Some(now);
                replacement.preview_payload = stdout;
                replacement.confirm_token = Some(confirm_token);
                replacement.expires_at = Some(now + PREVIEW_TTL_MS);
                self.rows.set(i, replacement);
                proof {
                    assert(self@ =~= pre.update(i as int, self@[i as int]));
                    lemma_unique_exec_index(pre, i as int, id@);
                    lemma_exec_update_wf(pre, self@, i as int);
                }
                return Ok(());
            }
            proof {
                assert(self@[i as int] == self.rows@[i as int]@);
            }
            i = i + 1;
        }
        proof {
            if has_exec(self@, id@) {
                let j = choose|j: int| 0 <= j < self@.len() && (#[trigger] self@[j]).id == id@;
                assert(false);
            }
        }
        Ok(())
    }

    /// The conditional gate of the apply phase, in one atomic step: only a
    /// `PreviewReady` prepare record whose token equals the caller's and
    /// whose preview has not expired is moved to `phase = Apply`, reset to
    /// `Pending`, and stripped of its volatile fields. Everything else
    /// leaves the table unchanged and reports which check failed.
    pub fn begin_apply(&mut self, id: &str, confirm_token: &str, now: i64) -> (r: AppResult<
        Execution,
    >)
        requires
            old(self).wf(),
        ensures
            final(self).wf(),
            r is Err ==> final(self)@ == old(self)@,
            !has_exec(old(self)@, id@) ==> (r matches Err(e) && e matches
                AppError::ExecutionNotFound(n) && n@ == id@),
            forall|i: int|
                0 <= i < old(self)@.len() && (#[trigger] old(self)@[i]).id == id@ ==> {
                    let row = old(self)@[i];
                    &&& (r is Ok <==> row.phase == ExecutionPhase::Prepare && row.status
                        == ExecutionStatus::PreviewReady && row.confirm_token == Some(
                        confirm_token@,
                    ) && (row.expires_at matches Some(x) && now <= x))
                    &&& (row.phase != ExecutionPhase::Prepare ==> (r matches Err(e) && e matches
                        AppError::Execution(msg) && msg@
                        == "Only preview executions can be applied"@))
                    &&& ((row.phase == ExecutionPhase::Prepare && row.status
                        != ExecutionStatus::PreviewReady) ==> (r matches Err(e) && e matches
                        AppError::Execution(msg) && msg@ == "Execution is not ready to apply"@))
                    &&& ((row.phase == ExecutionPhase::Prepare && row.status
                        == ExecutionStatus::PreviewReady && row.confirm_token != Some(
                        confirm_token@,
                    )) ==> (r matches Err(e) && e matches AppError::Execution(msg) && msg@
                        == "Invalid confirm token"@))
                    &&& ((row.phase == ExecutionPhase::Prepare && row.status
                        == ExecutionStatus::PreviewReady && row.confirm_token == Some(
                        confirm_token@,
                    ) && !(row.expires_at matches Some(x) && now <= x)) ==> (r matches Err(e) && e
                        matches AppError::Execution(msg) && msg@
                        == "Preview has expired, please run prepare again"@))
                    &&& (r matches Ok(e) ==> e@ == (ExecutionV {
                        phase: ExecutionPhase::Apply,
                        status: ExecutionStatus::Pending,
                        pid: None,
                        exit_code: None,
                        stdout: None,
                        stderr: None,
                        confirm_token: None,
                        started_at: now,
                        finished_at: None,
                        ..row
                    }) && final(self)@ == old(self)@.update(i, e@))
                },
            r matches Err(e) ==> !(e is PluginNotFound) && !(e is PluginAlreadyExists),
    {
        let ghost pre = self@;
        let mut i: usize = 0;
        while i < self.rows.len()
            invariant
                i <= self.rows@.len(),
                forall|j: int| 0 <= j < i ==> (#[trigger] self@[j]).id != id@,
                self@.len() == self.rows@.len(),
                self@ == pre,
            decreases self.rows@.len() - i,
        {
            if str_eq(self.rows[i].id.as_str(), id) {
                proof {
                    assert(self@[i as int] == self.rows@[i as int]@);
                    lemma_unique_exec_index(pre, i as int, id@);
                }
                if !matches!(self.rows[i].phase, ExecutionPhase::Prepare) {
                    return Err(validation_error("Only preview executions can be applied"));
                }
                if !matches!(self.rows[i].status, ExecutionStatus::PreviewReady) {
                    return Err(validation_error("Execution is not ready to apply"));
                }
                let token_matches = (match &self.rows[i].confirm_token {
                    Option::Some(t) => str_eq(t.as_str(), confirm_token),
                    Option::None => false,
                });
                if !token_matches {
                    return Err(validation_error("Invalid confirm token"));
                }
                let unexpired = (match self.rows[i].expires_at {
                    Option::Some(x) => now <= x,
                    Option::None => false,
                });
                if !unexpired {
                    return Err(
                        validation_error("Preview has expired, please run prepare again"),
                    );
                }
                let mut replacement = self.rows[i].duplicate();
                replacement.phase = ExecutionPhase::Apply;
                replacement.status = ExecutionStatus::Pending;
                replacement.pid = None;
                replacement.exit_code = None;
                replacement.stdout = None;
                replacement.stderr = None;
                replacement.confirm_token = None;
                replacement.started_at = now;
                replacement.finished_at = None;
                let result = replacement.duplicate();
                self.rows.set(i, replacement);
                proof {
                    assert(self@ =~= pre.update(i as int, result@));
                    lemma_exec_update_wf(pre, self@, i as int);
                }
                return Ok(result);
            }
            proof {
                assert(self@[i as int] == self.rows@[i as int]@);
            }
            i = i + 1;
        }
        proof {
            if has_exec(self@, id@) {
                let j = choose|j: int| 0 <= j < self@.len() && (#[trigger] self@[j]).id == id@;
                assert(false);
            }
        }
        Err(AppError::ExecutionNotFound(String::from_str(id)))
    }

    /// Sets a terminal status on the row; used by `stop`. A missing id is not
    /// an error.
    pub fn update_status(&mut self, id: &str, status: ExecutionStatus) -> (r: AppResult<()>)
        requires
            old(self).wf(),
            status.spec_is_terminal(),
        ensures
            final(self).wf(),
            r is Ok,
            !has_exec(old(self)@, id@) ==> final(self)@ == old(self)@,
            forall|i: int|
                0 <= i < old(self)@.len() && (#[trigger] old(self)@[i]).id == id@ ==> final(self)@ == old(self)@.update(i, ExecutionV { status, ..old(self)@[i] }),
    {
        let ghost pre = self@;
        let mut i: usize = 0;
        while i < self.rows.len()
            invariant
                i <= self.rows@.len(),
                forall|j: int| 0 <= j < i ==> (#[trigger] self@[j]).id != id@,
                self@.len() == self.rows@.len(),
                self@ == pre,
            decreases self.rows@.len() - i,
        {
            if str_eq(self.rows[i].id.as_str(), id) {
                proof {
                    assert(self@[i as int] == self.rows@[i as int]@);
                }
                let mut replacement = self.rows[i].duplicate();
                replacement.status = status;
                self.rows.set(i, replacement);
                proof {
                    assert(self@ =~= pre.update(i as int, self@[i as int]));
                    lemma_unique_exec_index(pre, i as int, id@);
                    lemma_exec_update_wf(pre, self@, i as int);
                }
                return Ok(());
            }
            proof {
                assert(self@[i as int] == self.rows@[i as int]@);
            }
            i = i + 1;
        }
        proof {
            if has_exec(self@, id@) {
                let j = choose|j: int| 0 <= j < self@.len() && (#[trigger] self@[j]).id == id@;
                assert(false);
            }
        }
        Ok(())
    }
}

/// The rows that survive deleting one plugin's records.
pub open spec fn execs_without(s: Seq<ExecutionV>, pid: Seq<char>) -> Seq<ExecutionV>
    decreases s.len(),
{
    if s.len() == 0 {
        Seq::empty()
    } else {
        let rest = execs_without(s.subrange(1, s.len() as int), pid);
        if s[0].plugin_id == pid {
            rest
        } else {
            seq![s[0]] + rest
        }
    }
}

proof fn lemma_execs_without_snoc(s: Seq<ExecutionV>, i: int, pid: Seq<char>)
    requires
        0 <= i < s.len(),
    ensures
        execs_without(s.subrange(0, i + 1), pid) == (if s[i].plugin_id == pid {
            execs_without(s.subrange(0, i), pid)
        } else {
            execs_without(s.subrange(0, i), pid).push(s[i])
        }),
    decreases i,
{
    if i == 0 {
        assert(s.subrange(0, 1) =~= seq![s[0]]);
        assert(seq![s[0]].subrange(1, 1) =~= Seq::<ExecutionV>::empty());
        assert(execs_without(Seq::<ExecutionV>::empty(), pid) =~= Seq::<ExecutionV>::empty());
        assert(s.subrange(0, 0) =~= Seq::<ExecutionV>::empty());
        if s[0].plugin_id != pid {
            assert(execs_without(s.subrange(0, 1), pid) =~= seq![s[0]]);
            assert(execs_without(s.subrange(0, 0), pid).push(s[0]) =~= seq![s[0]]);
        }
    } else {
        let t = s.subrange(1, s.len() as int);
        lemma_execs_without_snoc(t, i - 1, pid);
        assert(s.subrange(0, i + 1)[0] == s[0]);
        assert(s.subrange(0, i + 1).subrange(1, i + 1) =~= t.subrange(0, i));
        assert(s.subrange(0, i).subrange(1, i) =~= t.subrange(0, i - 1));
        assert(s.subrange(0, i)[0] == s[0]);
        assert(t[i - 1] == s[i]);
    }
}

impl ExecutionRepository {
    /// Deletes every record of one plugin, as uninstalling that plugin
    /// cascades over its executions. The surviving rows keep their order;
    /// none of them belongs to the plugin.
    pub fn delete_by_plugin(&mut self, plugin_id: &str) -> (r: AppResult<()>)
        requires
            old(self).wf(),
        ensures
            final(self).wf(),
            r is Ok,
            final(self)@ == execs_without(old(self)@, plugin_id@),
            forall|i: int|
                0 <= i < final(self)@.len() ==> (#[trigger] final(self)@[i]).plugin_id
                    != plugin_id@,
    {
        let ghost pre = self@;
        let mut out: Vec<Execution> = Vec::new();
        proof {
            assert(pre.subrange(0, 0) =~= Seq::<ExecutionV>::empty());
            assert(execs_without(pre.subrange(0, 0), plugin_id@) =~= Seq::<ExecutionV>::empty());
            assert(out@.map_values(|e: Execution| e@) =~= Seq::<ExecutionV>::empty());
        }
        let mut i: usize = 0;
        while i < self.rows.len()
            invariant
                i <= self.rows@.len(),
                self@ == pre,
                self@.len() == self.rows@.len(),
                out@.map_values(|e: Execution| e@) == execs_without(
                    pre.subrange(0, i as int),
                    plugin_id@,
                ),
                forall|k: int|
                    0 <= k < out@.len() ==> exists|j: int|
                        0 <= j < i && (#[trigger] out@[k])@ == pre[j],
                forall|k: int|
                    0 <= k < out@.len() ==> (#[trigger] out@[k])@.plugin_id != plugin_id@,
                execs_unique(out@.map_values(|e: Execution| e@)),
                previews_wf(out@.map_values(|e: Execution| e@)),
            decreases self.rows@.len() - i,
        {
            proof {
                assert(self@[i as int] == self.rows@[i as int]@);
                lemma_execs_without_snoc(pre, i as int, plugin_id@);
            }
            if !str_eq(self.rows[i].plugin_id.as_str(), plugin_id) {
                let ghost preout = out@;
                out.push(self.rows[i].duplicate());
                proof {
                    let preoutv = preout.map_values(|e: Execution| e@);
                    let outv = out@.map_values(|e: Execution| e@);
                    assert(outv =~= preoutv.push(pre[i as int]));
                    assert forall|k: int| 0 <= k < out@.len() implies exists|j: int|
                        0 <= j < i + 1 && (#[trigger] out@[k])@ == pre[j] by {
                        if k < preout.len() {
                            let j = choose|j: int|
                                0 <= j < i && (#[trigger] preout[k])@ == pre[j];
                            assert(out@[k] == preout[k]);
                        } else {
                            assert(out@[k]@ == pre[i as int]);
                        }
                    }
                    assert forall|a: int, b: int|
                        0 <= a < b < outv.len() implies (#[trigger] outv[a]).id != (
                    #[trigger] outv[b]).id by {
                        if b < preoutv.len() {
                            assert(preoutv[a].id != preoutv[b].id);
                        } else {
                            assert(outv[a] == preout[a]@);
                            let j = choose|j: int|
                                0 <= j < i && (#[trigger] preout[a])@ == pre[j];
                            assert(pre[j].id != pre[i as int].id);
                        }
                    }
                    assert forall|k: int|
                        0 <= k < outv.len() implies preview_row_wf(#[trigger] outv[k]) by {
                        if k < preoutv.len() {
                            assert(preview_row_wf(preoutv[k]));
                        } else {
                            assert(outv[k] == pre[i as int]);
                            assert(preview_row_wf(pre[i as int]));
                        }
                    }
                }
            }
            i = i + 1;
        }
        proof {
            assert(pre.subrange(0, pre.len() as int) =~= pre);
        }
        self.rows = out;
        Ok(())
    }
}

/// Copies an optional string.
fn clone_opt(o: &Option<String>) -> (r: Option<String>)
    ensures
        crate::models::opt_view(r) == crate::models::opt_view(*o),
{
    match o {
        Option::Some(s) => Option::Some(s.clone()),
        Option::None => Option::None,
    }
}

/// Two rows matching one id are the same row.
pub proof fn lemma_unique_exec_match(s: Seq<ExecutionV>, id: Seq<char>)
    requires
        execs_unique(s),
    ensures
        forall|i: int, j: int|
            0 <= i < s.len() && 0 <= j < s.len() && (#[trigger] s[i]).id == id && (
            #[trigger] s[j]).id == id ==> i == j,
{
    assert forall|i: int, j: int|
        0 <= i < s.len() && 0 <= j < s.len() && (#[trigger] s[i]).id == id && (#[trigger] s[j]).id
            == id implies i == j by {
        if i < j {
            assert(s[i].id != s[j].id);
        } else if j < i {
            assert(s[j].id != s[i].id);
        }
    }
}

/// In a table with unique ids, a match at one index is the only match.
proof fn lemma_unique_exec_index(s: Seq<ExecutionV>, i: int, id: Seq<char>)
    requires
        execs_unique(s),
        0 <= i < s.len(),
        s[i].id == id,
    ensures
        forall|j: int| 0 <= j < s.len() && (#[trigger] s[j]).id == id ==> j == i,
{
    assert forall|j: int| 0 <= j < s.len() && (#[trigger] s[j]).id == id implies j == i by {
        if j < i {
            assert(s[j].id != s[i].id);
        } else if j > i {
            assert(s[i].id != s[j].id);
        }
    }
}

/// Updating one row in place preserves the table invariants, as long as the
/// replacement keeps the id and is itself in good preview standing.
proof fn lemma_exec_update_wf(pre: Seq<ExecutionV>, post: Seq<ExecutionV>, i: int)
    requires
        execs_unique(pre),
        previews_wf(pre),
        0 <= i < pre.len(),
        post.len() == pre.len(),
        post[i].id == pre[i].id,
        preview_row_wf(post[i]),
        forall|j: int| 0 <= j < pre.len() && j != i ==> post[j] == pre[j],
    ensures
        execs_unique(post),
        previews_wf(post),
{
    assert forall|a: int, b: int|
        0 <= a < b < post.len() implies (#[trigger] post[a]).id != (#[trigger] post[b]).id by {
        assert(pre[a].id != pre[b].id);
        if a != i {
            assert(post[a] == pre[a]);
        }
        if b != i {
            assert(post[b] == pre[b]);
        }
    }
    assert forall|x: int| 0 <= x < post.len() implies preview_row_wf(#[trigger] post[x]) by {
        if x != i {
            assert(post[x] == pre[x]);
        }
    }
}

/// Every ready preview is a prepare-phase record whose expiry is exactly one
/// TTL after the supervisor finished.
pub proof fn lemma_preview_ready_shape(repo: &ExecutionRepository, i: int)
    requires
        repo.wf(),
        0 <= i < repo@.len(),
        repo@[i].status == ExecutionStatus::PreviewReady,
    ensures
        repo@[i].phase == ExecutionPhase::Prepare,
        repo@[i].finished_at matches Some(f) && repo@[i].expires_at == Some(
            (f + PREVIEW_TTL_MS) as i64,
        ),
{
    assert(preview_row_wf(repo@[i]));
}

/// What one `update_enabled` call does to the table.
pub open spec fn set_enabled_step(
    pre: Seq<PluginV>,
    post: Seq<PluginV>,
    id: Seq<char>,
    enabled: bool,
    now: i64,
) -> bool {
    &&& (!has_plugin(pre, id) ==> post == pre)
    &&& (forall|i: int|
        0 <= i < pre.len() && (#[trigger] pre[i]).plugin_id == id ==> (if (pre[i].enabled
            == enabled) {
            post == pre
        } else {
            post == pre.update(i, PluginV { enabled, updated_at: now, ..pre[i] })
        }))
}

/// Setting the enabled bit twice to the same value is idempotent: the second
/// call leaves every row exactly as the first call left it.
pub proof fn lemma_enable_idempotent(
    s0: Seq<PluginV>,
    s1: Seq<PluginV>,
    s2: Seq<PluginV>,
    id: Seq<char>,
    enabled: bool,
    n1: i64,
    n2: i64,
)
    requires
        plugins_unique(s0),
        set_enabled_step(s0, s1, id, enabled, n1),
        set_enabled_step(s1, s2, id, enabled, n2),
    ensures
        s2 == s1,
{
    if has_plugin(s0, id) {
        let i = choose|i: int| 0 <= i < s0.len() && (#[trigger] s0[i]).plugin_id == id;
        if s0[i].enabled == enabled {
            assert(s1 == s0);
            assert(s2 == s1);
        } else {
            assert(s1 == s0.update(i, PluginV { enabled, updated_at: n1, ..s0[i] }));
            assert(s1[i].plugin_id == id);
            assert(s1[i].enabled == enabled);
            assert(s2 == s1);
        }
    } else {
        assert(s1 == s0);
        assert(s2 == s1);
    }
}

/// After a successful removal the id is gone, so removing the same plugin a
/// second time reports `PluginNotFound`.
pub proof fn lemma_uninstall_twice(s0: Seq<PluginV>, s1: Seq<PluginV>, id: Seq<char>, i: int)
    requires
        plugins_unique(s0),
        0 <= i < s0.len(),
        s0[i].plugin_id == id,
        s1 == s0.remove(i),
    ensures
        !has_plugin(s1, id),
{
    assert forall|j: int| 0 <= j < s1.len() implies (#[trigger] s1[j]).plugin_id != id by {
        let j0: int = if j < i {
            j
        } else {
            j + 1
        };
        assert(s1[j] == s0[j0]);
        if j0 < i {
            assert(s0[j0].plugin_id != s0[i].plugin_id);
        } else {
            assert(s0[i].plugin_id != s0[j0].plugin_id);
        }
    }
    if has_plugin(s1, id) {
        let j = choose|j: int| 0 <= j < s1.len() && (#[trigger] s1[j]).plugin_id == id;
        assert(false);
    }
}

/// Orders plugin rows newest first; the rows themselves are kept, as a
/// multiset.
fn sort_plugins_newest_first(work: Vec<Plugin>) -> (r: Vec<Plugin>)
    ensures
        r@.map_values(|p: Plugin| p@).to_multiset() == work@.map_values(
            |p: Plugin| p@,
        ).to_multiset(),
        plugins_sorted(r@.map_values(|p: Plugin| p@)),
{
    broadcast use vstd::seq_lib::group_to_multiset_ensures;
    broadcast use vstd::multiset::group_multiset_axioms;

    let ghost orig = work@.map_values(|p: Plugin| p@);
    let mut work = work;
    let mut out: Vec<Plugin> = Vec::new();
    proof {
        assert(out@.map_values(|p: Plugin| p@) =~= Seq::<PluginV>::empty());
        assert(Seq::<PluginV>::empty().to_multiset().add(orig.to_multiset())
            =~= orig.to_multiset());
    }
    while work.len() > 0
        invariant
            plugins_sorted(out@.map_values(|p: Plugin| p@)),
            forall|a: int, b: int|
                0 <= a < out@.len() && 0 <= b < work@.len() ==> (#[trigger] out@[a])@.created_at
                    >= (#[trigger] work@[b])@.created_at,
            out@.map_values(|p: Plugin| p@).to_multiset().add(
                work@.map_values(|p: Plugin| p@).to_multiset(),
            ) == orig.to_multiset(),
        decreases work@.len(),
    {
        let mut best: usize = 0;
        let mut k: usize = 1;
        while k < work.len()
            invariant
                0 < work@.len(),
                best < work@.len(),
                k <= work@.len(),
                forall|j: int| 0 <= j < k ==> (#[trigger] work@[j]).created_at
                    <= work@[best as int].created_at,
            decreases work@.len() - k,
        {
            if work[k].created_at > work[best].created_at {
                best = k;
            }
            k = k + 1;
        }
        let ghost prework = work@.map_values(|p: Plugin| p@);
        let ghost preout = out@.map_values(|p: Plugin| p@);
        let row = work.remove(best);
        out.push(row);
        proof {
            let workv = work@.map_values(|p: Plugin| p@);
            let outv = out@.map_values(|p: Plugin| p@);
            assert(workv =~= prework.remove(best as int));
            assert(outv =~= preout.push(prework[best as int]));
            assert(prework.contains(prework[best as int]));
            assert(outv.to_multiset() =~= preout.to_multiset().insert(prework[best as int]));
            assert(workv.to_multiset() =~= prework.to_multiset().remove(prework[best as int]));
            assert(outv.to_multiset().add(workv.to_multiset()) =~= orig.to_multiset()) by {
                assert(prework.to_multiset().count(prework[best as int]) > 0);
                assert forall|x: PluginV|
                    outv.to_multiset().add(workv.to_multiset()).count(x) == orig.to_multiset()
                        .count(x) by {
                    assert(preout.to_multiset().add(prework.to_multiset()).count(x)
                        == orig.to_multiset().count(x));
                }
            }
            assert forall|a: int, b: int|
                0 <= a < out@.len() && 0 <= b < work@.len() implies (
            #[trigger] out@[a])@.created_at >= (#[trigger] work@[b])@.created_at by {
                assert(workv[b] == prework[if b < best as int {
                    b
                } else {
                    b + 1
                }]);
                if a < preout.len() {
                } else {
                    assert(outv[a] == prework[best as int]);
                }
            }
            assert(plugins_sorted(outv));
        }
    }
    proof {
        assert(work@.map_values(|p: Plugin| p@) =~= Seq::<PluginV>::empty());
        assert(Seq::<PluginV>::empty().to_multiset() =~= Multiset::<PluginV>::empty());
        assert(out@.map_values(|p: Plugin| p@).to_multiset() =~= orig.to_multiset());
    }
    out
}

/// Orders execution rows newest first; the rows themselves are kept, as a
/// multiset.
fn sort_execs_newest_first(work: Vec<Execution>) -> (r: Vec<Execution>)
    ensures
        r@.map_values(|e: Execution| e@).to_multiset() == work@.map_values(
            |e: Execution| e@,
        ).to_multiset(),
        execs_sorted(r@.map_values(|e: Execution| e@)),
{
    broadcast use vstd::seq_lib::group_to_multiset_ensures;
    broadcast use vstd::multiset::group_multiset_axioms;

    let ghost orig = work@.map_values(|e: Execution| e@);
    let mut work = work;
    let mut out: Vec<Execution> = Vec::new();
    proof {
        assert(out@.map_values(|e: Execution| e@) =~= Seq::<ExecutionV>::empty());
        assert(Seq::<ExecutionV>::empty().to_multiset().add(orig.to_multiset())
            =~= orig.to_multiset());
    }
    while work.len() > 0
        invariant
            execs_sorted(out@.map_values(|e: Execution| e@)),
            forall|a: int, b: int|
                0 <= a < out@.len() && 0 <= b < work@.len() ==> (#[trigger] out@[a])@.started_at
                    >= (#[trigger] work@[b])@.started_at,
            out@.map_values(|e: Execution| e@).to_multiset().add(
                work@.map_values(|e: Execution| e@).to_multiset(),
            ) == orig.to_multiset(),
        decreases work@.len(),
    {
        let mut best: usize = 0;
        let mut k: usize = 1;
        while k < work.len()
            invariant
                0 < work@.len(),
                best < work@.len(),
                k <= work@.len(),
                forall|j: int| 0 <= j < k ==> (#[trigger] work@[j]).started_at
                    <= work@[best as int].started_at,
            decreases work@.len() - k,
        {
            if work[k].started_at > work[best].started_at {
                best = k;
            }
            k = k + 1;
        }
        let ghost prework = work@.map_values(|e: Execution| e@);
        let ghost preout = out@.map_values(|e: Execution| e@);
        let row = work.remove(best);
        out.push(row);
        proof {
            let workv = work@.map_values(|e: Execution| e@);
            let outv = out@.map_values(|e: Execution| e@);
            assert(workv =~= prework.remove(best as int));
            assert(outv =~= preout.push(prework[best as int]));
            assert(prework.contains(prework[best as int]));
            assert(outv.to_multiset() =~= preout.to_multiset().insert(prework[best as int]));
            assert(workv.to_multiset() =~= prework.to_multiset().remove(prework[best as int]));
            assert(outv.to_multiset().add(workv.to_multiset()) =~= orig.to_multiset()) by {
                assert(prework.to_multiset().count(prework[best as int]) > 0);
                assert forall|x: ExecutionV|
                    outv.to_multiset().add(workv.to_multiset()).count(x) == orig.to_multiset()
                        .count(x) by {
                    assert(preout.to_multiset().add(prework.to_multiset()).count(x)
                        == orig.to_multiset().count(x));
                }
            }
            assert forall|a: int, b: int|
                0 <= a < out@.len() && 0 <= b < work@.len() implies (
            #[trigger] out@[a])@.started_at >= (#[trigger] work@[b])@.started_at by {
                assert(workv[b] == prework[if b < best as int {
                    b
                } else {
                    b + 1
                }]);
                if a < preout.len() {
                } else {
                    assert(outv[a] == prework[best as int]);
                }
            }
            assert(execs_sorted(outv));
        }
    }
    proof {
        assert(work@.map_values(|e: Execution| e@) =~= Seq::<ExecutionV>::empty());
        assert(Seq::<ExecutionV>::empty().to_multiset() =~= Multiset::<ExecutionV>::empty());
        assert(out@.map_values(|e: Execution| e@).to_multiset() =~= orig.to_multiset());
    }
    out
}

} // verus!
