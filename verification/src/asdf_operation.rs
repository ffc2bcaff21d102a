//! The shared-tool installation cache: which tool versions are installed,
//! which workdirs require them, and the TTL bookkeeping for the tool manager
//! and its plugins. Instants are unix seconds; every mutator takes the clock
//! reading as an argument in its `*_at` form, and the clock-driven entry
//! points delegate to those forms.
use vstd::prelude::*;
use vstd::pervasive::VecAdditionalExecFns;

use crate::clock;
use crate::clock::valid_ts;

verus! {

/// Refresh interval for the tool manager and its plugin registries.
pub const DAY_SECS: i64 = 86400;

/// Lifetime of a cached plugin version list.
pub const HOUR_SECS: i64 = 3600;

pub open spec fn valid_ts_int(t: int) -> bool {
    0 <= t <= clock::MAX_RFC3339_SECS
}

/// One installed `(tool, version)` pair and the workdirs that require it.
pub struct AsdfInstalled {
    pub tool: String,
    pub version: String,
    pub required_by: Vec<String>,
}

pub ghost struct AsdfInstalledView {
    pub tool: Seq<char>,
    pub version: Seq<char>,
    pub required_by: Seq<Seq<char>>,
}

impl View for AsdfInstalled {
    type V = AsdfInstalledView;

    open spec fn view(&self) -> AsdfInstalledView {
        AsdfInstalledView {
            tool: self.tool@,
            version: self.version@,
            required_by: self.required_by.deep_view(),
        }
    }
}

impl DeepView for AsdfInstalled {
    type V = AsdfInstalledView;

    open spec fn deep_view(&self) -> AsdfInstalledView {
        self.view()
    }
}

impl AsdfInstalledView {
    pub open spec fn wf(self) -> bool {
        forall|i: int, j: int|
            0 <= i < j < self.required_by.len() ==> self.required_by[i] != self.required_by[j]
    }
}

pub open spec fn rb_has(rb: Seq<Seq<char>>, wd: Seq<char>) -> bool {
    exists|i: int| 0 <= i < rb.len() && rb[i] == wd
}

/// The cached version list of one plugin, with its own refresh instant.
pub struct AsdfOperationUpdateCachePluginVersions {
    pub updated_at: i64,
    pub versions: Vec<String>,
}

pub ghost struct PluginVersionsView {
    pub updated_at: int,
    pub versions: Seq<Seq<char>>,
}

impl View for AsdfOperationUpdateCachePluginVersions {
    type V = PluginVersionsView;

    open spec fn view(&self) -> PluginVersionsView {
        PluginVersionsView { updated_at: self.updated_at as int, versions: self.versions.deep_view() }
    }
}

impl DeepView for AsdfOperationUpdateCachePluginVersions {
    type V = PluginVersionsView;

    open spec fn deep_view(&self) -> PluginVersionsView {
        self.view()
    }
}

impl PluginVersionsView {
    pub open spec fn wf(self) -> bool {
        valid_ts_int(self.updated_at)
    }
}

impl AsdfOperationUpdateCachePluginVersions {
    /// The version list as refreshed at `now`.
    pub fn new_at(versions: Vec<String>, now: i64) -> (r: Self)
        requires
            valid_ts(now),
        ensures
            r@ == (PluginVersionsView { updated_at: now as int, versions: versions.deep_view() }),
    {
        let r = AsdfOperationUpdateCachePluginVersions { updated_at: now, versions };
        proof {
            assert(r@ == (PluginVersionsView {
                updated_at: now as int,
                versions: r.versions.deep_view(),
            }));
        }
        r
    }

    /// The version list as refreshed at the current clock reading: the
    /// list passed in, order preserved, under some valid instant.
    pub fn new(versions: Vec<String>) -> (r: Self)
        ensures
            exists|now: int|
                valid_ts_int(now) && r@ == (PluginVersionsView {
                    updated_at: now,
                    versions: versions.deep_view(),
                }),
            r@.versions == versions.deep_view(),
            r@.wf(),
    {
        let ghost vdv = versions.deep_view();
        let now = clock::now_ts();
        let r = Self::new_at(versions, now);
        proof {
            assert(valid_ts_int(now as int) && r@ == (PluginVersionsView {
                updated_at: now as int,
                versions: vdv,
            }));
        }
        r
    }

    pub fn is_empty(&self) -> (r: bool)
        ensures
            r == (self@.versions.len() == 0),
    {
        self.versions.is_empty()
    }
}

/// One plugin's last-refresh instant.
pub struct PluginStamp {
    pub plugin: String,
    pub updated_at: i64,
}

pub ghost struct PluginStampView {
    pub plugin: Seq<char>,
    pub updated_at: int,
}

impl View for PluginStamp {
    type V = PluginStampView;

    open spec fn view(&self) -> PluginStampView {
        PluginStampView { plugin: self.plugin@, updated_at: self.updated_at as int }
    }
}

impl DeepView for PluginStamp {
    type V = PluginStampView;

    open spec fn deep_view(&self) -> PluginStampView {
        self.view()
    }
}

/// One plugin's cached version list, keyed by plugin name.
pub struct PluginVersionsEntry {
    pub plugin: String,
    pub value: AsdfOperationUpdateCachePluginVersions,
}

pub ghost struct PluginVersionsEntryView {
    pub plugin: Seq<char>,
    pub value: PluginVersionsView,
}

impl View for PluginVersionsEntry {
    type V = PluginVersionsEntryView;

    open spec fn view(&self) -> PluginVersionsEntryView {
        PluginVersionsEntryView { plugin: self.plugin@, value: self.value@ }
    }
}

impl DeepView for PluginVersionsEntry {
    type V = PluginVersionsEntryView;

    open spec fn deep_view(&self) -> PluginVersionsEntryView {
        self.view()
    }
}

pub open spec fn stamps_has(s: Seq<PluginStampView>, p: Seq<char>) -> bool {
    exists|i: int| 0 <= i < s.len() && s[i].plugin == p
}

pub open spec fn stamps_val(s: Seq<PluginStampView>, p: Seq<char>) -> int {
    s[choose|i: int| 0 <= i < s.len() && s[i].plugin == p].updated_at
}

/// The stamp list with `p` set to `t`: updated in place, or appended.
pub open spec fn stamps_upsert(s: Seq<PluginStampView>, p: Seq<char>, t: int) -> Seq<
    PluginStampView,
> {
    if stamps_has(s, p) {
        Seq::new(
            s.len(),
            |i: int|
                if s[i].plugin == p {
                    PluginStampView { plugin: s[i].plugin, updated_at: t }
                } else {
                    s[i]
                },
        )
    } else {
        s.push(PluginStampView { plugin: p, updated_at: t })
    }
}

pub open spec fn pv_has(s: Seq<PluginVersionsEntryView>, p: Seq<char>) -> bool {
    exists|i: int| 0 <= i < s.len() && s[i].plugin == p
}

pub open spec fn pv_val(s: Seq<PluginVersionsEntryView>, p: Seq<char>) -> PluginVersionsView {
    s[choose|i: int| 0 <= i < s.len() && s[i].plugin == p].value
}

/// The version-list entries with `p` set to `v`: updated in place, or appended.
pub open spec fn pv_upsert(
    s: Seq<PluginVersionsEntryView>,
    p: Seq<char>,
    v: PluginVersionsView,
) -> Seq<PluginVersionsEntryView> {
    if pv_has(s, p) {
        Seq::new(
            s.len(),
            |i: int|
                if s[i].plugin == p {
                    PluginVersionsEntryView { plugin: s[i].plugin, value: v }
                } else {
                    s[i]
                },
        )
    } else {
        s.push(PluginVersionsEntryView { plugin: p, value: v })
    }
}

/// An upsert into a stamp list with unique, valid entries keeps them unique
/// and valid, and afterwards `p` maps to `t`.
pub proof fn lemma_stamps_upsert(s: Seq<PluginStampView>, p: Seq<char>, t: int)
    requires
        forall|i: int, j: int| 0 <= i < j < s.len() ==> s[i].plugin != s[j].plugin,
        forall|i: int| 0 <= i < s.len() ==> valid_ts_int(#[trigger] s[i].updated_at),
        valid_ts_int(t),
    ensures
        forall|i: int, j: int|
            0 <= i < j < stamps_upsert(s, p, t).len() ==> stamps_upsert(s, p, t)[i].plugin
                != stamps_upsert(s, p, t)[j].plugin,
        forall|i: int|
            0 <= i < stamps_upsert(s, p, t).len() ==> valid_ts_int(
                #[trigger] stamps_upsert(s, p, t)[i].updated_at,
            ),
        stamps_has(stamps_upsert(s, p, t), p),
        stamps_val(stamps_upsert(s, p, t), p) == t,
        forall|q: Seq<char>|
            q != p ==> #[trigger] stamps_has(stamps_upsert(s, p, t), q) == stamps_has(s, q),
        forall|q: Seq<char>|
            q != p && stamps_has(s, q) ==> #[trigger] stamps_val(stamps_upsert(s, p, t), q)
                == stamps_val(s, q),
{
    let s2 = stamps_upsert(s, p, t);
    if stamps_has(s, p) {
        let w = choose|i: int| 0 <= i < s.len() && s[i].plugin == p;
        assert(s2[w].plugin == p);
        assert(forall|k: int|
            0 <= k < s.len() ==> #[trigger] s2[k] == (if s[k].plugin == p {
                PluginStampView { plugin: s[k].plugin, updated_at: t }
            } else {
                s[k]
            }));
        assert(forall|k: int| 0 <= k < s2.len() ==> (#[trigger] s2[k]).plugin == s[k].plugin);
        let ci = choose|i: int| 0 <= i < s2.len() && s2[i].plugin == p;
        assert(s[ci].plugin == p);
        assert(s2[ci].updated_at == t);
        assert(forall|q: Seq<char>|
            q != p ==> #[trigger] stamps_has(s2, q) == stamps_has(s, q)) by {
            assert(forall|k: int|
                #![trigger s2[k]]
                #![trigger s[k]]
                0 <= k < s2.len() ==> s2[k].plugin == s[k].plugin);
        }
        assert(forall|q: Seq<char>|
            q != p && stamps_has(s, q) ==> #[trigger] stamps_val(s2, q) == stamps_val(s, q)) by {
            assert(forall|i: int|
                #![trigger s2[i]]
                #![trigger s[i]]
                0 <= i < s2.len() ==> s2[i].plugin == s[i].plugin && (s2[i].plugin != p ==> s2[i]
                    == s[i]));
        }
    } else {
        assert(s2 == s.push(PluginStampView { plugin: p, updated_at: t }));
        assert(forall|k: int| 0 <= k < s.len() ==> s2[k] == s[k]);
        assert(s2[s.len() as int].plugin == p);
        assert(stamps_has(s2, p));
        let ci = choose|i: int| 0 <= i < s2.len() && s2[i].plugin == p;
        assert(ci == s.len());
        assert(forall|q: Seq<char>|
            q != p ==> #[trigger] stamps_has(s2, q) == stamps_has(s, q)) by {
            assert(forall|k: int|
                #![trigger s2[k]]
                #![trigger s[k]]
                0 <= k < s.len() ==> s2[k] == s[k]);
            assert(s2[s.len() as int].plugin == p);
        }
        assert(forall|q: Seq<char>|
            q != p && stamps_has(s, q) ==> #[trigger] stamps_val(s2, q) == stamps_val(s, q)) by {
            assert(forall|i: int|
                #![trigger s2[i]]
                #![trigger s[i]]
                0 <= i < s.len() ==> s2[i] == s[i]);
            assert(s2[s.len() as int].plugin == p);
        }
    }
}

/// The same facts for an upsert into the version-list entries, given a
/// well-formed new value.
pub proof fn lemma_pv_upsert(s: Seq<PluginVersionsEntryView>, p: Seq<char>, v: PluginVersionsView)
    requires
        forall|i: int, j: int| 0 <= i < j < s.len() ==> s[i].plugin != s[j].plugin,
        forall|i: int| 0 <= i < s.len() ==> (#[trigger] s[i].value).wf(),
        v.wf(),
    ensures
        forall|i: int, j: int|
            0 <= i < j < pv_upsert(s, p, v).len() ==> pv_upsert(s, p, v)[i].plugin != pv_upsert(
                s,
                p,
                v,
            )[j].plugin,
        forall|i: int|
            0 <= i < pv_upsert(s, p, v).len() ==> (#[trigger] pv_upsert(s, p, v)[i].value).wf(),
        pv_has(pv_upsert(s, p, v), p),
        pv_val(pv_upsert(s, p, v), p) == v,
        forall|q: Seq<char>| q != p ==> #[trigger] pv_has(pv_upsert(s, p, v), q) == pv_has(s, q),
        forall|q: Seq<char>|
            q != p && pv_has(s, q) ==> #[trigger] pv_val(pv_upsert(s, p, v), q) == pv_val(s, q),
{
    let s2 = pv_upsert(s, p, v);
    if pv_has(s, p) {
        let w = choose|i: int| 0 <= i < s.len() && s[i].plugin == p;
        assert(s2[w].plugin == p);
        assert(forall|k: int|
            0 <= k < s.len() ==> #[trigger] s2[k] == (if s[k].plugin == p {
                PluginVersionsEntryView { plugin: s[k].plugin, value: v }
            } else {
                s[k]
            }));
        assert(forall|k: int| 0 <= k < s2.len() ==> (#[trigger] s2[k]).plugin == s[k].plugin);
        let ci = choose|i: int| 0 <= i < s2.len() && s2[i].plugin == p;
        assert(s[ci].plugin == p);
        assert(s2[ci].value == v);
        assert(forall|q: Seq<char>|
            q != p ==> #[trigger] pv_has(s2, q) == pv_has(s, q)) by {
            assert(forall|k: int|
                #![trigger s2[k]]
                #![trigger s[k]]
                0 <= k < s2.len() ==> s2[k].plugin == s[k].plugin);
        }
        assert(forall|q: Seq<char>|
            q != p && pv_has(s, q) ==> #[trigger] pv_val(s2, q) == pv_val(s, q)) by {
            assert(forall|i: int|
                #![trigger s2[i]]
                #![trigger s[i]]
                0 <= i < s2.len() ==> s2[i].plugin == s[i].plugin && (s2[i].plugin != p ==> s2[i]
                    == s[i]));
        }
    } else {
        assert(s2 == s.push(PluginVersionsEntryView { plugin: p, value: v }));
        assert(forall|k: int| 0 <= k < s.len() ==> s2[k] == s[k]);
        assert(s2[s.len() as int].plugin == p);
        assert(pv_has(s2, p));
        let ci = choose|i: int| 0 <= i < s2.len() && s2[i].plugin == p;
        assert(ci == s.len());
        assert(forall|q: Seq<char>|
            q != p ==> #[trigger] pv_has(s2, q) == pv_has(s, q)) by {
            assert(forall|k: int|
                #![trigger s2[k]]
                #![trigger s[k]]
                0 <= k < s.len() ==> s2[k] == s[k]);
            assert(s2[s.len() as int].plugin == p);
        }
        assert(forall|q: Seq<char>|
            q != p && pv_has(s, q) ==> #[trigger] pv_val(s2, q) == pv_val(s, q)) by {
            assert(forall|i: int|
                #![trigger s2[i]]
                #![trigger s[i]]
                0 <= i < s.len() ==> s2[i] == s[i]);
            assert(s2[s.len() as int].plugin == p);
        }
    }
}

/// Index of `plugin` among the version-list entries, if present.
pub(crate) fn pv_index(v: &Vec<PluginVersionsEntry>, plugin: &str) -> (r: Option<usize>)
    ensures
        match r {
            Some(i) => i < v.deep_view().len() && v.deep_view()[i as int].plugin == plugin@,
            None => !pv_has(v.deep_view(), plugin@),
        },
{
    let ghost s0 = v.deep_view();
    let n = v.len();
    let mut i: usize = 0;
    while i < n
        invariant
            n == v@.len(),
            i <= n,
            s0 == v.deep_view(),
            forall|k: int| 0 <= k < i ==> s0[k].plugin != plugin@,
        decreases n - i,
    {
        if crate::strutil::str_eq(v[i].plugin.as_str(), plugin) {
            proof {
                assert(s0[i as int] == v@[i as int]@);
            }
            return Some(i);
        }
        proof {
            assert(s0[i as int] == v@[i as int]@);
        }
        i = i + 1;
    }
    proof {
        assert(!pv_has(s0, plugin@));
    }
    None
}

/// Index of `plugin` among the stamps, if present.
pub(crate) fn stamp_index(v: &Vec<PluginStamp>, plugin: &str) -> (r: Option<usize>)
    ensures
        match r {
            Some(i) => i < v.deep_view().len() && v.deep_view()[i as int].plugin == plugin@,
            None => !stamps_has(v.deep_view(), plugin@),
        },
{
    let ghost s0 = v.deep_view();
    let n = v.len();
    let mut i: usize = 0;
    while i < n
        invariant
            n == v@.len(),
            i <= n,
            s0 == v.deep_view(),
            forall|k: int| 0 <= k < i ==> s0[k].plugin != plugin@,
        decreases n - i,
    {
        if crate::strutil::str_eq(v[i].plugin.as_str(), plugin) {
            proof {
                assert(s0[i as int] == v@[i as int]@);
            }
            return Some(i);
        }
        proof {
            assert(s0[i as int] == v@[i as int]@);
        }
        i = i + 1;
    }
    proof {
        assert(!stamps_has(s0, plugin@));
    }
    None
}

/// Refresh bookkeeping: the manager's own stamp, one stamp per plugin, and
/// one cached version list per plugin.
pub struct AsdfOperationUpdateCache {
    pub asdf_updated_at: i64,
    pub plugins_updated_at: Vec<PluginStamp>,
    pub plugins_versions: Vec<PluginVersionsEntry>,
}

pub ghost struct AsdfOperationUpdateCacheView {
    pub asdf_updated_at: int,
    pub plugins_updated_at: Seq<PluginStampView>,
    pub plugins_versions: Seq<PluginVersionsEntryView>,
}

impl View for AsdfOperationUpdateCache {
    type V = AsdfOperationUpdateCacheView;

    open spec fn view(&self) -> AsdfOperationUpdateCacheView {
        AsdfOperationUpdateCacheView {
            asdf_updated_at: self.asdf_updated_at as int,
            plugins_updated_at: self.plugins_updated_at.deep_view(),
            plugins_versions: self.plugins_versions.deep_view(),
        }
    }
}

impl AsdfOperationUpdateCacheView {
    pub open spec fn wf(self) -> bool {
        &&& valid_ts_int(self.asdf_updated_at)
        &&& forall|i: int, j: int|
            0 <= i < j < self.plugins_updated_at.len() ==> self.plugins_updated_at[i].plugin
                != self.plugins_updated_at[j].plugin
        &&& forall|i: int|
            0 <= i < self.plugins_updated_at.len() ==> valid_ts_int(
                #[trigger] self.plugins_updated_at[i].updated_at,
            )
        &&& forall|i: int, j: int|
            0 <= i < j < self.plugins_versions.len() ==> self.plugins_versions[i].plugin
                != self.plugins_versions[j].plugin
        &&& forall|i: int|
            0 <= i < self.plugins_versions.len() ==> (#[trigger] self.plugins_versions[i].value).wf()
    }

    pub open spec fn empty() -> AsdfOperationUpdateCacheView {
        AsdfOperationUpdateCacheView {
            asdf_updated_at: 0,
            plugins_updated_at: Seq::empty(),
            plugins_versions: Seq::empty(),
        }
    }

    /// Logical absence: no plugin bookkeeping and the manager's stamp unset.
    pub open spec fn is_empty(self) -> bool {
        self.plugins_versions.len() == 0 && self.plugins_updated_at.len() == 0
            && self.asdf_updated_at == 0
    }

    /// The manager should refresh when its stamp has outlived `expire_after`.
    pub open spec fn spec_should_update_asdf(self, expire_after: int, now: int) -> bool {
        self.asdf_updated_at + expire_after < now
    }

    /// A plugin should refresh when never stamped, or stamped too long ago.
    pub open spec fn spec_should_update_plugin(self, p: Seq<char>, expire_after: int, now: int) -> bool {
        if stamps_has(self.plugins_updated_at, p) {
            stamps_val(self.plugins_updated_at, p) + expire_after < now
        } else {
            true
        }
    }

    /// The cached list for `p`, unless it is absent or has expired.
    pub open spec fn spec_plugin_versions(self, p: Seq<char>, expire_after: int, now: int) -> Option<
        Seq<Seq<char>>,
    > {
        if pv_has(self.plugins_versions, p) {
            let v = pv_val(self.plugins_versions, p);
            if v.updated_at + expire_after < now {
                None
            } else {
                Some(v.versions)
            }
        } else {
            None
        }
    }
}

impl AsdfOperationUpdateCache {
    pub fn new() -> (r: Self)
        ensures
            r@ == AsdfOperationUpdateCacheView::empty(),
            r@.wf(),
    {
        let r = AsdfOperationUpdateCache {
            asdf_updated_at: 0,
            plugins_updated_at: Vec::new(),
            plugins_versions: Vec::new(),
        };
        proof {
            assert(r@.plugins_updated_at =~= Seq::<PluginStampView>::empty());
            assert(r@.plugins_versions =~= Seq::<PluginVersionsEntryView>::empty());
        }
        r
    }

    pub fn is_empty(&self) -> (r: bool)
        ensures
            r == self@.is_empty(),
    {
        self.plugins_versions.is_empty() && self.plugins_updated_at.is_empty()
            && self.asdf_updated_at == 0
    }

    /// Record that the tool manager itself refreshed at `now`.
    pub fn updated_asdf_at(&mut self, now: i64)
        requires
            valid_ts(now),
        ensures
            final(self)@ == (AsdfOperationUpdateCacheView { asdf_updated_at: now as int, ..old(self)@ }),
    {
        self.asdf_updated_at = now;
    }

    pub fn updated_asdf(&mut self)
        ensures
            exists|now: int|
                valid_ts_int(now) && final(self)@ == (AsdfOperationUpdateCacheView {
                    asdf_updated_at: now,
                    ..old(self)@
                }),
    {
        let now = clock::now_ts();
        self.updated_asdf_at(now);
        proof {
            assert(valid_ts_int(now as int) && self@ == (AsdfOperationUpdateCacheView {
                asdf_updated_at: now as int,
                ..old(self)@
            }));
        }
    }

    /// Record that `plugin`'s registry refreshed at `now`.
    pub fn updated_asdf_plugin_at(&mut self, plugin: &str, now: i64)
        requires
            valid_ts(now),
            old(self)@.wf(),
        ensures
            final(self)@ == (AsdfOperationUpdateCacheView {
                plugins_updated_at: stamps_upsert(old(self)@.plugins_updated_at, plugin@, now as int),
                ..old(self)@
            }),
            final(self)@.wf(),
    {
        let ghost s0 = self@.plugins_updated_at;
        let n = self.plugins_updated_at.len();
        let mut i: usize = 0;
        while i < n
            invariant
                n == self.plugins_updated_at@.len(),
                i <= n,
                forall|k: int| 0 <= k < i ==> s0[k].plugin != plugin@,
                s0 == self@.plugins_updated_at,
                self@ == old(self)@,
                old(self)@.wf(),
                valid_ts(now),
            decreases n - i,
        {
            if crate::strutil::str_eq(self.plugins_updated_at[i].plugin.as_str(), plugin) {
                proof {
                    assert(s0[i as int] == self.plugins_updated_at@[i as int]@);
                    assert(s0[i as int].plugin == plugin@);
                    assert(stamps_has(s0, plugin@));
                    assert(forall|k: int|
                        0 <= k < s0.len() && #[trigger] s0[k].plugin == plugin@ ==> k == i as int);
                }
                let p = self.plugins_updated_at[i].plugin.clone();
                self.plugins_updated_at.set(i, PluginStamp { plugin: p, updated_at: now });
                proof {
                    let s2 = self@.plugins_updated_at;
                    assert(s2 =~~= stamps_upsert(s0, plugin@, now as int));
                    assert(self@ == (AsdfOperationUpdateCacheView {
                        plugins_updated_at: stamps_upsert(s0, plugin@, now as int),
                        ..old(self)@
                    }));
                    lemma_stamps_upsert(s0, plugin@, now as int);
                }
                return ;
            }
            proof {
                assert(s0[i as int] == self.plugins_updated_at@[i as int]@);
            }
            i = i + 1;
        }
        let p = plugin.to_owned();
        self.plugins_updated_at.push(PluginStamp { plugin: p, updated_at: now });
        proof {
            assert(!stamps_has(s0, plugin@));
            let s2 = self@.plugins_updated_at;
            assert(s2 =~~= stamps_upsert(s0, plugin@, now as int));
            assert(self@ == (AsdfOperationUpdateCacheView {
                plugins_updated_at: stamps_upsert(s0, plugin@, now as int),
                ..old(self)@
            }));
            lemma_stamps_upsert(s0, plugin@, now as int);
        }
    }

    pub fn updated_asdf_plugin(&mut self, plugin: &str)
        requires
            old(self)@.wf(),
        ensures
            exists|now: int|
                valid_ts_int(now) && final(self)@ == (AsdfOperationUpdateCacheView {
                    plugins_updated_at: stamps_upsert(old(self)@.plugins_updated_at, plugin@, now),
                    ..old(self)@
                }),
            final(self)@.wf(),
    {
        let now = clock::now_ts();
        self.updated_asdf_plugin_at(plugin, now);
        proof {
            assert(valid_ts_int(now as int) && self@ == (AsdfOperationUpdateCacheView {
                plugins_updated_at: stamps_upsert(old(self)@.plugins_updated_at, plugin@, now as int),
                ..old(self)@
            }));
        }
    }

    /// Replace `plugin`'s cached version list, refreshed at `now`.
    pub fn set_asdf_plugin_versions_at(&mut self, plugin: &str, versions: Vec<String>, now: i64)
        requires
            valid_ts(now),
            old(self)@.wf(),
        ensures
            final(self)@ == (AsdfOperationUpdateCacheView {
                plugins_versions: pv_upsert(
                    old(self)@.plugins_versions,
                    plugin@,
                    PluginVersionsView { updated_at: now as int, versions: versions.deep_view() },
                ),
                ..old(self)@
            }),
            final(self)@.wf(),
    {
        let ghost s0 = self@.plugins_versions;
        let ghost pv = PluginVersionsView { updated_at: now as int, versions: versions.deep_view() };
        let value = AsdfOperationUpdateCachePluginVersions::new_at(versions, now);
        match pv_index(&self.plugins_versions, plugin) {
            Some(i) => {
                proof {
                    assert(s0[i as int].plugin == plugin@);
                    assert(pv_has(s0, plugin@));
                    assert(forall|k: int|
                        0 <= k < s0.len() && #[trigger] s0[k].plugin == plugin@ ==> k == i as int);
                }
                let p = self.plugins_versions[i].plugin.clone();
                self.plugins_versions.set(i, PluginVersionsEntry { plugin: p, value });
                proof {
                    let s2 = self@.plugins_versions;
                    assert(s2 =~~= pv_upsert(s0, plugin@, pv));
                    assert(self@ == (AsdfOperationUpdateCacheView {
                        plugins_versions: pv_upsert(s0, plugin@, pv),
                        ..old(self)@
                    }));
                    lemma_pv_upsert(s0, plugin@, pv);
                }
            },
            None => {
                let p = plugin.to_owned();
                self.plugins_versions.push(PluginVersionsEntry { plugin: p, value });
                proof {
                    assert(!pv_has(s0, plugin@));
                    let s2 = self@.plugins_versions;
                    assert(s2 =~~= pv_upsert(s0, plugin@, pv));
                    assert(self@ == (AsdfOperationUpdateCacheView {
                        plugins_versions: pv_upsert(s0, plugin@, pv),
                        ..old(self)@
                    }));
                    lemma_pv_upsert(s0, plugin@, pv);
                }
            },
        }
    }

    pub fn set_asdf_plugin_versions(&mut self, plugin: &str, versions: Vec<String>)
        requires
            old(self)@.wf(),
        ensures
            exists|now: int|
                valid_ts_int(now) && final(self)@ == (AsdfOperationUpdateCacheView {
                    plugins_versions: pv_upsert(
                        old(self)@.plugins_versions,
                        plugin@,
                        PluginVersionsView { updated_at: now, versions: versions.deep_view() },
                    ),
                    ..old(self)@
                }),
            final(self)@.wf(),
    {
        let ghost vv = versions.deep_view();
        let now = clock::now_ts();
        self.set_asdf_plugin_versions_at(plugin, versions, now);
        proof {
            assert(valid_ts_int(now as int) && self@ == (AsdfOperationUpdateCacheView {
                plugins_versions: pv_upsert(
                    old(self)@.plugins_versions,
                    plugin@,
                    PluginVersionsView { updated_at: now as int, versions: vv },
                ),
                ..old(self)@
            }));
        }
    }

    /// Whether the manager's stamp, aged by `expire_after` seconds, lies
    /// before `now`.
    pub fn should_update_asdf_at(&self, expire_after: i64, now: i64) -> (r: bool)
        requires
            self@.wf(),
            0 <= expire_after <= clock::MAX_RFC3339_SECS,
        ensures
            r == self@.spec_should_update_asdf(expire_after as int, now as int),
    {
        self.asdf_updated_at + expire_after < now
    }

    pub fn should_update_asdf(&self, expire_after: i64) -> (r: bool)
        requires
            self@.wf(),
            0 <= expire_after <= clock::MAX_RFC3339_SECS,
        ensures
            exists|now: int|
                valid_ts_int(now) && r == self@.spec_should_update_asdf(expire_after as int, now),
    {
        let now = clock::now_ts();
        let r = self.should_update_asdf_at(expire_after, now);
        proof {
            assert(valid_ts_int(now as int) && r == self@.spec_should_update_asdf(
                expire_after as int,
                now as int,
            ));
        }
        r
    }

    /// Whether `plugin`'s stamp is absent or, aged by `expire_after`, lies
    /// before `now`.
    pub fn should_update_asdf_plugin_at(&self, plugin: &str, expire_after: i64, now: i64) -> (r:
        bool)
        requires
            self@.wf(),
            0 <= expire_after <= clock::MAX_RFC3339_SECS,
        ensures
            r == self@.spec_should_update_plugin(plugin@, expire_after as int, now as int),
    {
        let ghost s0 = self@.plugins_updated_at;
        let n = self.plugins_updated_at.len();
        let mut i: usize = 0;
        while i < n
            invariant
                n == self.plugins_updated_at@.len(),
                i <= n,
                forall|k: int| 0 <= k < i ==> s0[k].plugin != plugin@,
                s0 == self@.plugins_updated_at,
                self@.wf(),
                0 <= expire_after <= clock::MAX_RFC3339_SECS,
            decreases n - i,
        {
            if crate::strutil::str_eq(self.plugins_updated_at[i].plugin.as_str(), plugin) {
                proof {
                    assert(s0[i as int] == self.plugins_updated_at@[i as int]@);
                    assert(s0[i as int].plugin == plugin@);
                    assert(stamps_has(s0, plugin@));
                    assert(forall|k: int|
                        0 <= k < s0.len() && #[trigger] s0[k].plugin == plugin@ ==> k == i as int);
                    assert(stamps_val(s0, plugin@) == s0[i as int].updated_at);
                }
                return self.plugins_updated_at[i].updated_at + expire_after < now;
            }
            proof {
                assert(s0[i as int] == self.plugins_updated_at@[i as int]@);
            }
            i = i + 1;
        }
        proof {
            assert(!stamps_has(s0, plugin@));
        }
        true
    }

    pub fn should_update_asdf_plugin(&self, plugin: &str, expire_after: i64) -> (r: bool)
        requires
            self@.wf(),
            0 <= expire_after <= clock::MAX_RFC3339_SECS,
        ensures
            exists|now: int|
                valid_ts_int(now) && r == self@.spec_should_update_plugin(
                    plugin@,
                    expire_after as int,
                    now,
                ),
    {
        let now = clock::now_ts();
        let r = self.should_update_asdf_plugin_at(plugin, expire_after, now);
        proof {
            assert(valid_ts_int(now as int) && r == self@.spec_should_update_plugin(
                plugin@,
                expire_after as int,
                now as int,
            ));
        }
        r
    }

    /// The cached list for `plugin`, a miss when absent or older than
    /// `expire_after` as of `now`. Expired entries are kept on disk and only
    /// treated as misses.
    pub fn get_asdf_plugin_versions_at(&self, plugin: &str, expire_after: i64, now: i64) -> (r:
        Option<Vec<String>>)
        requires
            self@.wf(),
            0 <= expire_after <= clock::MAX_RFC3339_SECS,
        ensures
            match r {
                Some(v) => self@.spec_plugin_versions(plugin@, expire_after as int, now as int)
                    == Some(v.deep_view()),
                None => self@.spec_plugin_versions(plugin@, expire_after as int, now as int) is None,
            },
    {
        let ghost s0 = self@.plugins_versions;
        let n = self.plugins_versions.len();
        let mut i: usize = 0;
        while i < n
            invariant
                n == self.plugins_versions@.len(),
                i <= n,
                forall|k: int| 0 <= k < i ==> s0[k].plugin != plugin@,
                s0 == self@.plugins_versions,
                self@.wf(),
                0 <= expire_after <= clock::MAX_RFC3339_SECS,
            decreases n - i,
        {
            if crate::strutil::str_eq(self.plugins_versions[i].plugin.as_str(), plugin) {
                proof {
                    assert(s0[i as int] == self.plugins_versions@[i as int]@);
                    assert(s0[i as int].plugin == plugin@);
                    assert(pv_has(s0, plugin@));
                    assert(forall|k: int|
                        0 <= k < s0.len() && #[trigger] s0[k].plugin == plugin@ ==> k == i as int);
                    assert(pv_val(s0, plugin@) == s0[i as int].value);
                }
                let e = &self.plugins_versions[i];
                if e.value.updated_at + expire_after < now {
                    return None;
                }
                let out = e.value.versions.clone();
                proof {
                    assert(out.deep_view() =~= s0[i as int].value.versions) by {
                        assert(forall|k: int|
                            0 <= k < out@.len() ==> out@[k]@ == #[trigger] e.value.versions@[k]@);
                    }
                }
                return Some(out);
            }
            proof {
                assert(s0[i as int] == self.plugins_versions@[i as int]@);
            }
            i = i + 1;
        }
        proof {
            assert(!pv_has(s0, plugin@));
        }
        None
    }

    pub fn get_asdf_plugin_versions(&self, plugin: &str, expire_after: i64) -> (r: Option<
        Vec<String>,
    >)
        requires
            self@.wf(),
            0 <= expire_after <= clock::MAX_RFC3339_SECS,
        ensures
            exists|now: int|
                valid_ts_int(now) && (match r {
                    Some(v) => self@.spec_plugin_versions(plugin@, expire_after as int, now) == Some(
                        v.deep_view(),
                    ),
                    None => self@.spec_plugin_versions(plugin@, expire_after as int, now) is None,
                }),
    {
        let now = clock::now_ts();
        let r = self.get_asdf_plugin_versions_at(plugin, expire_after, now);
        proof {
            assert(valid_ts_int(now as int) && (match r {
                Some(v) => self@.spec_plugin_versions(plugin@, expire_after as int, now as int)
                    == Some(v.deep_view()),
                None => self@.spec_plugin_versions(
                    plugin@,
                    expire_after as int,
                    now as int,
                ) is None,
            }));
        }
        r
    }
}

pub open spec fn inst_has(s: Seq<AsdfInstalledView>, tool: Seq<char>, version: Seq<char>) -> bool {
    exists|i: int| 0 <= i < s.len() && s[i].tool == tool && s[i].version == version
}

pub open spec fn inst_at(s: Seq<AsdfInstalledView>, tool: Seq<char>, version: Seq<char>) -> AsdfInstalledView {
    s[choose|i: int| 0 <= i < s.len() && s[i].tool == tool && s[i].version == version]
}

/// The installed entries after `wd` starts requiring `(tool, version)`: the
/// workdir joins the entry's `required_by`, or a fresh entry appears.
pub open spec fn inst_add(
    s: Seq<AsdfInstalledView>,
    tool: Seq<char>,
    version: Seq<char>,
    wd: Seq<char>,
) -> Seq<AsdfInstalledView> {
    if inst_has(s, tool, version) {
        Seq::new(
            s.len(),
            |i: int|
                if s[i].tool == tool && s[i].version == version {
                    AsdfInstalledView {
                        tool: s[i].tool,
                        version: s[i].version,
                        required_by: s[i].required_by.push(wd),
                    }
                } else {
                    s[i]
                },
        )
    } else {
        s.push(AsdfInstalledView { tool, version, required_by: seq![wd] })
    }
}

/// Adding a workdir that the entry does not list yet keeps entries unique per
/// `(tool, version)` and keeps every `required_by` free of duplicates.
pub proof fn lemma_inst_add(
    s: Seq<AsdfInstalledView>,
    tool: Seq<char>,
    version: Seq<char>,
    wd: Seq<char>,
)
    requires
        forall|i: int, j: int|
            0 <= i < j < s.len() ==> !(s[i].tool == s[j].tool && s[i].version == s[j].version),
        forall|i: int| 0 <= i < s.len() ==> (#[trigger] s[i]).wf(),
        !(inst_has(s, tool, version) && rb_has(inst_at(s, tool, version).required_by, wd)),
    ensures
        forall|i: int, j: int|
            0 <= i < j < inst_add(s, tool, version, wd).len() ==> !(inst_add(s, tool, version, wd)[i].tool
                == inst_add(s, tool, version, wd)[j].tool && inst_add(s, tool, version, wd)[i].version
                == inst_add(s, tool, version, wd)[j].version),
        forall|i: int|
            0 <= i < inst_add(s, tool, version, wd).len() ==> (#[trigger] inst_add(
                s,
                tool,
                version,
                wd,
            )[i]).wf(),
        inst_has(inst_add(s, tool, version, wd), tool, version),
        rb_has(inst_at(inst_add(s, tool, version, wd), tool, version).required_by, wd),
{
    let s2 = inst_add(s, tool, version, wd);
    if inst_has(s, tool, version) {
        let w = choose|i: int| 0 <= i < s.len() && s[i].tool == tool && s[i].version == version;
        assert(forall|k: int|
            0 <= k < s.len() ==> #[trigger] s2[k] == (if s[k].tool == tool && s[k].version
                == version {
                AsdfInstalledView {
                    tool: s[k].tool,
                    version: s[k].version,
                    required_by: s[k].required_by.push(wd),
                }
            } else {
                s[k]
            }));
        assert(forall|k: int|
            #![trigger s2[k]]
            #![trigger s[k]]
            0 <= k < s.len() ==> s2[k].tool == s[k].tool && s2[k].version == s[k].version);
        assert(s2[w].tool == tool && s2[w].version == version);
        let ci = choose|i: int| 0 <= i < s2.len() && s2[i].tool == tool && s2[i].version == version;
        assert(s[ci].tool == tool && s[ci].version == version);
        assert(ci == w);
        assert(s2[w].required_by == s[w].required_by.push(wd));
        assert(s2[w].required_by[s[w].required_by.len() as int] == wd);
        assert(rb_has(s2[w].required_by, wd));
        assert(forall|k: int| 0 <= k < s2.len() ==> (#[trigger] s2[k]).wf()) by {
            assert(forall|a: int, b: int|
                0 <= a < b < s[w].required_by.push(wd).len() ==> s[w].required_by.push(wd)[a]
                    != s[w].required_by.push(wd)[b]) by {
                assert(forall|a: int|
                    0 <= a < s[w].required_by.len() ==> s[w].required_by.push(wd)[a]
                        == s[w].required_by[a]);
                assert(!rb_has(s[w].required_by, wd));
            }
        }
    } else {
        assert(s2 == s.push(AsdfInstalledView { tool, version, required_by: seq![wd] }));
        assert(forall|k: int| 0 <= k < s.len() ==> s2[k] == s[k]);
        assert(s2[s.len() as int].tool == tool && s2[s.len() as int].version == version);
        let ci = choose|i: int| 0 <= i < s2.len() && s2[i].tool == tool && s2[i].version == version;
        assert(ci == s.len());
        assert(rb_has(s2[ci].required_by, wd)) by {
            assert(s2[ci].required_by[0] == wd);
        }
    }
}

/// The whole persisted schema: installed entries, refresh bookkeeping, and
/// the schema-wide last-update instant.
pub struct AsdfOperationCache {
    pub installed: Vec<AsdfInstalled>,
    pub update_cache: AsdfOperationUpdateCache,
    pub updated_at: i64,
}

pub ghost struct AsdfOperationCacheView {
    pub installed: Seq<AsdfInstalledView>,
    pub update_cache: AsdfOperationUpdateCacheView,
    pub updated_at: int,
}

impl View for AsdfOperationCache {
    type V = AsdfOperationCacheView;

    open spec fn view(&self) -> AsdfOperationCacheView {
        AsdfOperationCacheView {
            installed: self.installed.deep_view(),
            update_cache: self.update_cache@,
            updated_at: self.updated_at as int,
        }
    }
}

impl AsdfOperationCacheView {
    pub open spec fn wf(self) -> bool {
        &&& valid_ts_int(self.updated_at)
        &&& self.update_cache.wf()
        &&& forall|i: int| 0 <= i < self.installed.len() ==> (#[trigger] self.installed[i]).wf()
        &&& forall|i: int, j: int|
            0 <= i < j < self.installed.len() ==> !(self.installed[i].tool
                == self.installed[j].tool && self.installed[i].version
                == self.installed[j].version)
    }

    pub open spec fn empty() -> AsdfOperationCacheView {
        AsdfOperationCacheView {
            installed: Seq::empty(),
            update_cache: AsdfOperationUpdateCacheView::empty(),
            updated_at: 0,
        }
    }

    /// Logical absence: nothing installed and no bookkeeping.
    pub open spec fn is_empty(self) -> bool {
        self.installed.len() == 0 && self.update_cache.is_empty()
    }

    /// Whether `wd` already counts among the workdirs requiring the pair.
    pub open spec fn spec_requires(self, tool: Seq<char>, version: Seq<char>, wd: Seq<char>) -> bool {
        inst_has(self.installed, tool, version) && rb_has(
            inst_at(self.installed, tool, version).required_by,
            wd,
        )
    }
}

/// Index of the `(tool, version)` entry, if present.
pub(crate) fn inst_index(v: &Vec<AsdfInstalled>, tool: &str, version: &str) -> (r: Option<usize>)
    ensures
        match r {
            Some(i) => i < v.deep_view().len() && v.deep_view()[i as int].tool == tool@
                && v.deep_view()[i as int].version == version@,
            None => !inst_has(v.deep_view(), tool@, version@),
        },
{
    let ghost s0 = v.deep_view();
    let n = v.len();
    let mut i: usize = 0;
    while i < n
        invariant
            n == v@.len(),
            i <= n,
            s0 == v.deep_view(),
            forall|k: int| 0 <= k < i ==> !(s0[k].tool == tool@ && s0[k].version == version@),
        decreases n - i,
    {
        proof {
            assert(s0[i as int] == v@[i as int]@);
        }
        if crate::strutil::str_eq(v[i].tool.as_str(), tool) && crate::strutil::str_eq(
            v[i].version.as_str(),
            version,
        ) {
            return Some(i);
        }
        i = i + 1;
    }
    proof {
        assert(!inst_has(s0, tool@, version@));
    }
    None
}

/// Whether some element of `v` reads `s`.
pub(crate) fn vec_contains_str(v: &Vec<String>, s: &str) -> (r: bool)
    ensures
        r == rb_has(v.deep_view(), s@),
{
    let ghost s0 = v.deep_view();
    let n = v.len();
    let mut i: usize = 0;
    while i < n
        invariant
            n == v@.len(),
            i <= n,
            s0 == v.deep_view(),
            forall|k: int| 0 <= k < i ==> s0[k] != s@,
        decreases n - i,
    {
        proof {
            assert(s0[i as int] == v@[i as int]@);
        }
        if crate::strutil::str_eq(v[i].as_str(), s) {
            return true;
        }
        i = i + 1;
    }
    proof {
        assert(!rb_has(s0, s@));
    }
    false
}

impl AsdfOperationCache {
    /// The zero value used when no persisted state exists.
    pub fn new_empty() -> (r: Self)
        ensures
            r@ == AsdfOperationCacheView::empty(),
            r@.wf(),
    {
        let r = AsdfOperationCache {
            installed: Vec::new(),
            update_cache: AsdfOperationUpdateCache::new(),
            updated_at: 0,
        };
        proof {
            assert(r@.installed =~= Seq::<AsdfInstalledView>::empty());
        }
        r
    }

    pub fn is_empty(&self) -> (r: bool)
        ensures
            r == self@.is_empty(),
    {
        self.installed.is_empty() && self.update_cache.is_empty()
    }

    /// Set the schema-wide last-update instant to `now`.
    pub fn touch(&mut self, now: i64)
        requires
            valid_ts(now),
        ensures
            final(self)@ == (AsdfOperationCacheView { updated_at: now as int, ..old(self)@ }),
    {
        self.updated_at = now;
    }

    /// Set the schema-wide last-update instant to the current clock reading.
    pub fn updated(&mut self)
        ensures
            exists|now: int|
                valid_ts_int(now) && final(self)@ == (AsdfOperationCacheView {
                    updated_at: now,
                    ..old(self)@
                }),
    {
        let now = clock::now_ts();
        self.touch(now);
        proof {
            assert(valid_ts_int(now as int) && self@ == (AsdfOperationCacheView {
                updated_at: now as int,
                ..old(self)@
            }));
        }
    }

    pub fn updated_asdf_at(&mut self, now: i64)
        requires
            valid_ts(now),
            old(self)@.wf(),
        ensures
            final(self)@ == (AsdfOperationCacheView {
                update_cache: (AsdfOperationUpdateCacheView {
                    asdf_updated_at: now as int,
                    ..old(self)@.update_cache
                }),
                updated_at: now as int,
                ..old(self)@
            }),
            final(self)@.wf(),
    {
        self.update_cache.updated_asdf_at(now);
        self.touch(now);
    }

    pub fn updated_asdf(&mut self)
        requires
            old(self)@.wf(),
        ensures
            exists|now: int|
                valid_ts_int(now) && final(self)@ == (AsdfOperationCacheView {
                    update_cache: (AsdfOperationUpdateCacheView {
                        asdf_updated_at: now,
                        ..old(self)@.update_cache
                    }),
                    updated_at: now,
                    ..old(self)@
                }),
            final(self)@.wf(),
    {
        let now = clock::now_ts();
        self.updated_asdf_at(now);
        proof {
            assert(valid_ts_int(now as int) && self@ == (AsdfOperationCacheView {
                update_cache: (AsdfOperationUpdateCacheView {
                    asdf_updated_at: now as int,
                    ..old(self)@.update_cache
                }),
                updated_at: now as int,
                ..old(self)@
            }));
        }
    }

    pub fn updated_asdf_plugin_at(&mut self, plugin: &str, now: i64)
        requires
            valid_ts(now),
            old(self)@.wf(),
        ensures
            final(self)@ == (AsdfOperationCacheView {
                update_cache: (AsdfOperationUpdateCacheView {
                    plugins_updated_at: stamps_upsert(
                        old(self)@.update_cache.plugins_updated_at,
                        plugin@,
                        now as int,
                    ),
                    ..old(self)@.update_cache
                }),
                updated_at: now as int,
                ..old(self)@
            }),
            final(self)@.wf(),
    {
        self.update_cache.updated_asdf_plugin_at(plugin, now);
        self.touch(now);
    }

    pub fn updated_asdf_plugin(&mut self, plugin: &str)
        requires
            old(self)@.wf(),
        ensures
            exists|now: int|
                valid_ts_int(now) && final(self)@ == (AsdfOperationCacheView {
                    update_cache: (AsdfOperationUpdateCacheView {
                        plugins_updated_at: stamps_upsert(
                            old(self)@.update_cache.plugins_updated_at,
                            plugin@,
                            now,
                        ),
                        ..old(self)@.update_cache
                    }),
                    updated_at: now,
                    ..old(self)@
                }),
            final(self)@.wf(),
    {
        let now = clock::now_ts();
        self.updated_asdf_plugin_at(plugin, now);
        proof {
            assert(valid_ts_int(now as int) && self@ == (AsdfOperationCacheView {
                update_cache: (AsdfOperationUpdateCacheView {
                    plugins_updated_at: stamps_upsert(
                        old(self)@.update_cache.plugins_updated_at,
                        plugin@,
                        now as int,
                    ),
                    ..old(self)@.update_cache
                }),
                updated_at: now as int,
                ..old(self)@
            }));
        }
    }

    pub fn set_asdf_plugin_versions_at(&mut self, plugin: &str, versions: Vec<String>, now: i64)
        requires
            valid_ts(now),
            old(self)@.wf(),
        ensures
            final(self)@ == (AsdfOperationCacheView {
                update_cache: (AsdfOperationUpdateCacheView {
                    plugins_versions: pv_upsert(
                        old(self)@.update_cache.plugins_versions,
                        plugin@,
                        PluginVersionsView { updated_at: now as int, versions: versions.deep_view() },
                    ),
                    ..old(self)@.update_cache
                }),
                updated_at: now as int,
                ..old(self)@
            }),
            final(self)@.wf(),
    {
        self.update_cache.set_asdf_plugin_versions_at(plugin, versions, now);
        self.touch(now);
    }

    pub fn set_asdf_plugin_versions(&mut self, plugin: &str, versions: Vec<String>)
        requires
            old(self)@.wf(),
        ensures
            exists|now: int|
                valid_ts_int(now) && final(self)@ == (AsdfOperationCacheView {
                    update_cache: (AsdfOperationUpdateCacheView {
                        plugins_versions: pv_upsert(
                            old(self)@.update_cache.plugins_versions,
                            plugin@,
                            PluginVersionsView { updated_at: now, versions: versions.deep_view() },
                        ),
                        ..old(self)@.update_cache
                    }),
                    updated_at: now,
                    ..old(self)@
                }),
            final(self)@.wf(),
    {
        let ghost vdv = versions.deep_view();
        let now = clock::now_ts();
        self.set_asdf_plugin_versions_at(plugin, versions, now);
        proof {
            assert(valid_ts_int(now as int) && self@ == (AsdfOperationCacheView {
                update_cache: (AsdfOperationUpdateCacheView {
                    plugins_versions: pv_upsert(
                        old(self)@.update_cache.plugins_versions,
                        plugin@,
                        PluginVersionsView { updated_at: now as int, versions: vdv },
                    ),
                    ..old(self)@.update_cache
                }),
                updated_at: now as int,
                ..old(self)@
            }));
        }
    }

    /// Whether the tool manager's last refresh is older than one day at `now`.
    pub fn should_update_asdf_at(&self, now: i64) -> (r: bool)
        requires
            self@.wf(),
        ensures
            r == self@.update_cache.spec_should_update_asdf(DAY_SECS as int, now as int),
    {
        self.update_cache.should_update_asdf_at(DAY_SECS, now)
    }

    pub fn should_update_asdf(&self) -> (r: bool)
        requires
            self@.wf(),
        ensures
            exists|now: int|
                valid_ts_int(now) && r == self@.update_cache.spec_should_update_asdf(
                    DAY_SECS as int,
                    now,
                ),
    {
        let now = clock::now_ts();
        let r = self.update_cache.should_update_asdf_at(DAY_SECS, now);
        proof {
            assert(valid_ts_int(now as int) && r == self@.update_cache.spec_should_update_asdf(
                DAY_SECS as int,
                now as int,
            ));
        }
        r
    }

    /// Whether `plugin`'s registry was never refreshed, or more than one day
    /// before `now`.
    pub fn should_update_asdf_plugin_at(&self, plugin: &str, now: i64) -> (r: bool)
        requires
            self@.wf(),
        ensures
            r == self@.update_cache.spec_should_update_plugin(plugin@, DAY_SECS as int, now as int),
    {
        self.update_cache.should_update_asdf_plugin_at(plugin, DAY_SECS, now)
    }

    pub fn should_update_asdf_plugin(&self, plugin: &str) -> (r: bool)
        requires
            self@.wf(),
        ensures
            exists|now: int|
                valid_ts_int(now) && r == self@.update_cache.spec_should_update_plugin(
                    plugin@,
                    DAY_SECS as int,
                    now,
                ),
    {
        let now = clock::now_ts();
        let r = self.update_cache.should_update_asdf_plugin_at(plugin, DAY_SECS, now);
        proof {
            assert(valid_ts_int(now as int) && r == self@.update_cache.spec_should_update_plugin(
                plugin@,
                DAY_SECS as int,
                now as int,
            ));
        }
        r
    }

    /// The cached version list for `plugin`, a miss when absent or older than
    /// one hour at `now`.
    pub fn get_asdf_plugin_versions_at(&self, plugin: &str, now: i64) -> (r: Option<Vec<String>>)
        requires
            self@.wf(),
        ensures
            match r {
                Some(v) => self@.update_cache.spec_plugin_versions(
                    plugin@,
                    HOUR_SECS as int,
                    now as int,
                ) == Some(v.deep_view()),
                None => self@.update_cache.spec_plugin_versions(
                    plugin@,
                    HOUR_SECS as int,
                    now as int,
                ) is None,
            },
    {
        self.update_cache.get_asdf_plugin_versions_at(plugin, HOUR_SECS, now)
    }

    pub fn get_asdf_plugin_versions(&self, plugin: &str) -> (r: Option<Vec<String>>)
        requires
            self@.wf(),
        ensures
            exists|now: int|
                valid_ts_int(now) && (match r {
                    Some(v) => self@.update_cache.spec_plugin_versions(
                        plugin@,
                        HOUR_SECS as int,
                        now,
                    ) == Some(v.deep_view()),
                    None => self@.update_cache.spec_plugin_versions(
                        plugin@,
                        HOUR_SECS as int,
                        now,
                    ) is None,
                }),
    {
        let now = clock::now_ts();
        let r = self.update_cache.get_asdf_plugin_versions_at(plugin, HOUR_SECS, now);
        proof {
            assert(valid_ts_int(now as int) && (match r {
                Some(v) => self@.update_cache.spec_plugin_versions(
                    plugin@,
                    HOUR_SECS as int,
                    now as int,
                ) == Some(v.deep_view()),
                None => self@.update_cache.spec_plugin_versions(
                    plugin@,
                    HOUR_SECS as int,
                    now as int,
                ) is None,
            }));
        }
        r
    }

    /// Record that `workdir_id` requires `(tool, version)` as of `now`. True
    /// exactly when something changed: a no-op re-add leaves the cache
    /// untouched, timestamp included, so nothing needs persisting.
    pub fn add_installed_at(&mut self, workdir_id: &str, tool: &str, version: &str, now: i64) -> (r:
        bool)
        requires
            valid_ts(now),
            old(self)@.wf(),
        ensures
            r == !old(self)@.spec_requires(tool@, version@, workdir_id@),
            r ==> final(self)@ == (AsdfOperationCacheView {
                installed: inst_add(old(self)@.installed, tool@, version@, workdir_id@),
                updated_at: now as int,
                ..old(self)@
            }),
            !r ==> final(self)@ == old(self)@,
            final(self)@.wf(),
    {
        let ghost s0 = self@.installed;
        match inst_index(&self.installed, tool, version) {
            Some(i) => {
                proof {
                    assert(inst_has(s0, tool@, version@));
                    assert(forall|k: int|
                        0 <= k < s0.len() && (#[trigger] s0[k]).tool == tool@ && s0[k].version
                            == version@ ==> k == i as int);
                    assert(inst_at(s0, tool@, version@) == s0[i as int]);
                }
                if vec_contains_str(&self.installed[i].required_by, workdir_id) {
                    proof {
                        assert(self@.installed[i as int].required_by
                            == self.installed@[i as int]@.required_by);
                        assert(old(self)@.spec_requires(tool@, version@, workdir_id@));
                    }
                    return false;
                }
                let e_tool = self.installed[i].tool.clone();
                let e_version = self.installed[i].version.clone();
                let mut rb = self.installed[i].required_by.clone();
                proof {
                    assert(rb.deep_view() =~~= s0[i as int].required_by) by {
                        assert(forall|k: int|
                            0 <= k < rb@.len() ==> rb@[k]@ == #[trigger] self.installed@[i as int].required_by@[k]@);
                    }
                }
                let ghost rb0 = rb.deep_view();
                rb.push(workdir_id.to_owned());
                proof {
                    assert(rb.deep_view() =~~= rb0.push(workdir_id@)) by {
                        assert(forall|k: int| 0 <= k < rb0.len() ==> rb.deep_view()[k] == rb0[k]);
                        assert(rb.deep_view()[rb0.len() as int] == workdir_id@);
                    }
                }
                self.installed.set(
                    i,
                    AsdfInstalled { tool: e_tool, version: e_version, required_by: rb },
                );
                self.updated_at = now;
                proof {
                    let s2 = self@.installed;
                    assert(s2.len() == s0.len());
                    assert(s2[i as int] == (AsdfInstalledView {
                        tool: s0[i as int].tool,
                        version: s0[i as int].version,
                        required_by: s0[i as int].required_by.push(workdir_id@),
                    }));
                    assert(forall|k: int| 0 <= k < s0.len() && k != i as int ==> s2[k] == s0[k]);
                    assert(self@.installed =~~= inst_add(s0, tool@, version@, workdir_id@));
                    assert(self@ == (AsdfOperationCacheView {
                        installed: inst_add(s0, tool@, version@, workdir_id@),
                        updated_at: now as int,
                        ..old(self)@
                    }));
                    lemma_inst_add(s0, tool@, version@, workdir_id@);
                }
                true
            },
            None => {
                let mut rb: Vec<String> = Vec::new();
                rb.push(workdir_id.to_owned());
                proof {
                    assert(rb.deep_view() =~~= seq![workdir_id@]);
                }
                self.installed.push(
                    AsdfInstalled { tool: tool.to_owned(), version: version.to_owned(), required_by: rb },
                );
                self.updated_at = now;
                proof {
                    assert(!inst_has(s0, tool@, version@));
                    let s2 = self@.installed;
                    assert(s2.len() == s0.len() + 1);
                    assert(forall|k: int| 0 <= k < s0.len() ==> s2[k] == s0[k]);
                    assert(s2[s0.len() as int] == (AsdfInstalledView {
                        tool: tool@,
                        version: version@,
                        required_by: seq![workdir_id@],
                    }));
                    assert(self@.installed =~~= inst_add(s0, tool@, version@, workdir_id@));
                    assert(self@ == (AsdfOperationCacheView {
                        installed: inst_add(s0, tool@, version@, workdir_id@),
                        updated_at: now as int,
                        ..old(self)@
                    }));
                    lemma_inst_add(s0, tool@, version@, workdir_id@);
                }
                true
            },
        }
    }

    /// `add_installed_at` at the current clock reading.
    pub fn add_installed(&mut self, workdir_id: &str, tool: &str, version: &str) -> (r: bool)
        requires
            old(self)@.wf(),
        ensures
            r == !old(self)@.spec_requires(tool@, version@, workdir_id@),
            !r ==> final(self)@ == old(self)@,
            r ==> exists|now: int|
                valid_ts_int(now) && final(self)@ == (AsdfOperationCacheView {
                    installed: inst_add(old(self)@.installed, tool@, version@, workdir_id@),
                    updated_at: now,
                    ..old(self)@
                }),
            final(self)@.wf(),
    {
        let now = clock::now_ts();
        let r = self.add_installed_at(workdir_id, tool, version, now);
        proof {
            if r {
                assert(valid_ts_int(now as int) && self@ == (AsdfOperationCacheView {
                    installed: inst_add(old(self)@.installed, tool@, version@, workdir_id@),
                    updated_at: now as int,
                    ..old(self)@
                }));
            }
        }
        r
    }
}

} // verus!
