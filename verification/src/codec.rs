//! The on-disk rendering of the shared-tool installation cache: one record
//! per line, space-separated fields, text fields escaped, instants in
//! RFC 3339 form, and every field with a default value omitted. An
//! all-default cache renders as the empty string.
use vstd::prelude::*;
use vstd::string::StrSliceExecFns;

use crate::asdf_operation::AsdfInstalled;
use crate::asdf_operation::AsdfInstalledView;
use crate::asdf_operation::AsdfOperationCache;
use crate::asdf_operation::AsdfOperationCacheView;
use crate::asdf_operation::PluginStamp;
use crate::asdf_operation::PluginStampView;
use crate::asdf_operation::PluginVersionsEntry;
use crate::asdf_operation::PluginVersionsEntryView;
use crate::asdf_operation::valid_ts_int;
use crate::clock;
use crate::clock::rfc3339_of;
use crate::strutil;
use crate::strutil::esc_all;
use crate::strutil::seq_has_char;
use crate::strutil::spec_escape;
use crate::strutil::spec_join;
use crate::strutil::spec_split;
use crate::strutil::spec_unescape;

verus! {

/// A field fit to stand between separators: non-empty, and free of the
/// separators and of the escape lead.
pub open spec fn clean_token(s: Seq<char>) -> bool {
    s.len() > 0 && forall|i: int|
        0 <= i < s.len() ==> s[i] != ' ' && s[i] != '\n' && s[i] != '\r' && s[i] != '%'
}

/// The renderings of every instant the cache would write are clean tokens.
/// `encode` derives this from the formatter's own guarantees.
pub open spec fn rfc_tokens_clean(v: AsdfOperationCacheView) -> bool {
    &&& v.updated_at != 0 ==> clean_token(rfc3339_of(v.updated_at as i64))
    &&& v.update_cache.asdf_updated_at != 0 ==> clean_token(
        rfc3339_of(v.update_cache.asdf_updated_at as i64),
    )
    &&& forall|j: int|
        0 <= j < v.update_cache.plugins_updated_at.len() ==> clean_token(
            rfc3339_of(#[trigger] v.update_cache.plugins_updated_at[j].updated_at as i64),
        )
    &&& forall|j: int|
        0 <= j < v.update_cache.plugins_versions.len() ==> clean_token(
            rfc3339_of(#[trigger] v.update_cache.plugins_versions[j].value.updated_at as i64),
        )
}

pub open spec fn installed_line(e: AsdfInstalledView) -> Seq<char> {
    spec_join(
        seq!["installed"@, spec_escape(e.tool), spec_escape(e.version)] + esc_all(e.required_by),
        ' ',
    )
}

pub open spec fn stamp_line(e: PluginStampView) -> Seq<char> {
    spec_join(
        seq!["plugin_updated_at"@, spec_escape(e.plugin), rfc3339_of(e.updated_at as i64)],
        ' ',
    )
}

pub open spec fn pv_line(e: PluginVersionsEntryView) -> Seq<char> {
    spec_join(
        seq![
            "plugin_versions"@,
            spec_escape(e.plugin),
            rfc3339_of(e.value.updated_at as i64),
        ] + esc_all(e.value.versions),
        ' ',
    )
}

pub open spec fn ts_line(tag: Seq<char>, t: int) -> Seq<char> {
    spec_join(seq![tag, rfc3339_of(t as i64)], ' ')
}

pub open spec fn inst_lines(s: Seq<AsdfInstalledView>) -> Seq<Seq<char>> {
    s.map_values(|e: AsdfInstalledView| installed_line(e))
}

pub open spec fn stamp_lines(s: Seq<PluginStampView>) -> Seq<Seq<char>> {
    s.map_values(|e: PluginStampView| stamp_line(e))
}

pub open spec fn pv_lines(s: Seq<PluginVersionsEntryView>) -> Seq<Seq<char>> {
    s.map_values(|e: PluginVersionsEntryView| pv_line(e))
}

pub proof fn lemma_inst_lines_take(s: Seq<AsdfInstalledView>, i: int)
    requires
        0 <= i < s.len(),
    ensures
        inst_lines(s.take(i + 1)) == inst_lines(s.take(i)).push(installed_line(s[i])),
{
    assert(inst_lines(s.take(i + 1)) =~~= inst_lines(s.take(i)).push(installed_line(s[i]))) by {
        assert(forall|k: int| 0 <= k <= i ==> s.take(i + 1)[k] == s[k]);
        assert(forall|k: int| 0 <= k < i ==> s.take(i)[k] == s[k]);
    }
}

pub proof fn lemma_stamp_lines_take(s: Seq<PluginStampView>, i: int)
    requires
        0 <= i < s.len(),
    ensures
        stamp_lines(s.take(i + 1)) == stamp_lines(s.take(i)).push(stamp_line(s[i])),
{
    assert(stamp_lines(s.take(i + 1)) =~~= stamp_lines(s.take(i)).push(stamp_line(s[i]))) by {
        assert(forall|k: int| 0 <= k <= i ==> s.take(i + 1)[k] == s[k]);
        assert(forall|k: int| 0 <= k < i ==> s.take(i)[k] == s[k]);
    }
}

pub proof fn lemma_pv_lines_take(s: Seq<PluginVersionsEntryView>, i: int)
    requires
        0 <= i < s.len(),
    ensures
        pv_lines(s.take(i + 1)) == pv_lines(s.take(i)).push(pv_line(s[i])),
{
    assert(pv_lines(s.take(i + 1)) =~~= pv_lines(s.take(i)).push(pv_line(s[i]))) by {
        assert(forall|k: int| 0 <= k <= i ==> s.take(i + 1)[k] == s[k]);
        assert(forall|k: int| 0 <= k < i ==> s.take(i)[k] == s[k]);
    }
}

/// The records of `v`, in their fixed order, timestamps at their origin
/// sentinel omitted.
pub open spec fn spec_lines(v: AsdfOperationCacheView) -> Seq<Seq<char>> {
    (if v.updated_at == 0 {
        Seq::<Seq<char>>::empty()
    } else {
        seq![ts_line("updated_at"@, v.updated_at)]
    }) + (if v.update_cache.asdf_updated_at == 0 {
        Seq::<Seq<char>>::empty()
    } else {
        seq![ts_line("asdf_updated_at"@, v.update_cache.asdf_updated_at)]
    }) + inst_lines(v.installed) + stamp_lines(v.update_cache.plugins_updated_at) + pv_lines(
        v.update_cache.plugins_versions,
    )
}

/// What `encode` writes: the records joined by line breaks.
pub open spec fn spec_encode(v: AsdfOperationCacheView) -> Seq<char> {
    spec_join(spec_lines(v), '\n')
}

/// One escaped text field.
fn esc(s: &str) -> (r: String)
    ensures
        r@ == spec_escape(s@),
        !seq_has_char(r@, ' '),
        !seq_has_char(r@, '\n'),
        !seq_has_char(r@, '\r'),
{
    let r = strutil::escape_token(s);
    proof {
        strutil::lemma_escape_no_sep(s@);
    }
    r
}

fn installed_line_exec(e: &AsdfInstalled) -> (r: String)
    ensures
        r@ == installed_line(e@),
{
    let mut toks: Vec<String> = Vec::new();
    toks.push("installed".to_owned());
    toks.push(esc(e.tool.as_str()));
    toks.push(esc(e.version.as_str()));
    let ghost head = seq!["installed"@, spec_escape(e@.tool), spec_escape(e@.version)];
    proof {
        assert(toks.deep_view() =~~= head);
    }
    let n = e.required_by.len();
    let mut i: usize = 0;
    proof {
        assert(e@.required_by.take(0) =~= Seq::<Seq<char>>::empty());
        assert(esc_all(Seq::<Seq<char>>::empty()) =~~= Seq::<Seq<char>>::empty());
    }
    while i < n
        invariant
            i <= n,
            n == e.required_by@.len(),
            e@ == (AsdfInstalledView { tool: e@.tool, version: e@.version, required_by: e@.required_by }),
            n == e@.required_by.len(),
            toks.deep_view() =~~= head + esc_all(e@.required_by.take(i as int)),
        decreases n - i,
    {
        proof {
            assert(e.required_by.deep_view()[i as int] == e.required_by@[i as int]@);
        }
        let ghost tdv0 = toks.deep_view();
        toks.push(esc(e.required_by[i].as_str()));
        proof {
            assert(toks.deep_view() =~~= tdv0.push(spec_escape(e@.required_by[i as int])));
            strutil::lemma_esc_all_take(e@.required_by, i as int);
            assert((head + esc_all(e@.required_by.take(i as int))).push(
                spec_escape(e@.required_by[i as int]),
            ) =~~= head + esc_all(e@.required_by.take(i as int)).push(
                spec_escape(e@.required_by[i as int]),
            ));
            assert(toks.deep_view() =~~= head + esc_all(e@.required_by.take(i as int + 1)));
        }
        i = i + 1;
    }
    proof {
        assert(e@.required_by.take(n as int) =~= e@.required_by);
    }
    strutil::join_space(&toks)
}

fn stamp_line_exec(e: &PluginStamp) -> (r: String)
    requires
        clock::valid_ts(e.updated_at),
    ensures
        r@ == stamp_line(e@),
        clean_token(rfc3339_of(e@.updated_at as i64)),
{
    let mut toks: Vec<String> = Vec::new();
    toks.push("plugin_updated_at".to_owned());
    toks.push(esc(e.plugin.as_str()));
    toks.push(clock::format_rfc3339(e.updated_at));
    proof {
        assert(toks.deep_view() =~~= seq![
            "plugin_updated_at"@,
            spec_escape(e@.plugin),
            rfc3339_of(e@.updated_at as i64),
        ]);
    }
    strutil::join_space(&toks)
}

fn pv_line_exec(e: &PluginVersionsEntry) -> (r: String)
    requires
        clock::valid_ts(e.value.updated_at),
    ensures
        r@ == pv_line(e@),
        clean_token(rfc3339_of(e@.value.updated_at as i64)),
{
    let mut toks: Vec<String> = Vec::new();
    toks.push("plugin_versions".to_owned());
    toks.push(esc(e.plugin.as_str()));
    toks.push(clock::format_rfc3339(e.value.updated_at));
    let ghost head = seq![
        "plugin_versions"@,
        spec_escape(e@.plugin),
        rfc3339_of(e@.value.updated_at as i64),
    ];
    proof {
        assert(toks.deep_view() =~~= head);
    }
    let n = e.value.versions.len();
    let mut i: usize = 0;
    proof {
        assert(e@.value.versions.take(0) =~= Seq::<Seq<char>>::empty());
        assert(esc_all(Seq::<Seq<char>>::empty()) =~~= Seq::<Seq<char>>::empty());
    }
    while i < n
        invariant
            i <= n,
            n == e.value.versions@.len(),
            n == e@.value.versions.len(),
            head == seq![
                "plugin_versions"@,
                spec_escape(e@.plugin),
                rfc3339_of(e@.value.updated_at as i64),
            ],
            clean_token(rfc3339_of(e@.value.updated_at as i64)),
            toks.deep_view() =~~= head + esc_all(e@.value.versions.take(i as int)),
        decreases n - i,
    {
        proof {
            assert(e.value.versions.deep_view()[i as int] == e.value.versions@[i as int]@);
        }
        let ghost tdv0 = toks.deep_view();
        toks.push(esc(e.value.versions[i].as_str()));
        proof {
            assert(toks.deep_view() =~~= tdv0.push(spec_escape(e@.value.versions[i as int])));
            strutil::lemma_esc_all_take(e@.value.versions, i as int);
            assert((head + esc_all(e@.value.versions.take(i as int))).push(
                spec_escape(e@.value.versions[i as int]),
            ) =~~= head + esc_all(e@.value.versions.take(i as int)).push(
                spec_escape(e@.value.versions[i as int]),
            ));
            assert(toks.deep_view() =~~= head + esc_all(e@.value.versions.take(i as int + 1)));
        }
        i = i + 1;
    }
    proof {
        assert(e@.value.versions.take(n as int) =~= e@.value.versions);
    }
    strutil::join_space(&toks)
}

impl AsdfOperationCache {
    /// Serialize this cache; the output is exactly `spec_encode` of its
    /// model, and every instant written is known to render as a clean token.
    pub fn encode(&self) -> (r: String)
        requires
            self@.wf(),
        ensures
            r@ == spec_encode(self@),
            rfc_tokens_clean(self@),
    {
        let ghost v = self@;
        let mut lines: Vec<String> = Vec::new();
        if self.updated_at != 0 {
            let mut toks: Vec<String> = Vec::new();
            toks.push("updated_at".to_owned());
            toks.push(clock::format_rfc3339(self.updated_at));
            proof {
                assert(toks.deep_view() =~~= seq!["updated_at"@, rfc3339_of(v.updated_at as i64)]);
            }
            lines.push(strutil::join_space(&toks));
        }
        let ghost part1 = if v.updated_at == 0 {
            Seq::<Seq<char>>::empty()
        } else {
            seq![ts_line("updated_at"@, v.updated_at)]
        };
        proof {
            assert(lines.deep_view() =~~= part1);
        }
        if self.update_cache.asdf_updated_at != 0 {
            let mut toks: Vec<String> = Vec::new();
            toks.push("asdf_updated_at".to_owned());
            toks.push(clock::format_rfc3339(self.update_cache.asdf_updated_at));
            proof {
                assert(toks.deep_view() =~~= seq![
                    "asdf_updated_at"@,
                    rfc3339_of(v.update_cache.asdf_updated_at as i64),
                ]);
            }
            lines.push(strutil::join_space(&toks));
        }
        let ghost part2 = part1 + (if v.update_cache.asdf_updated_at == 0 {
            Seq::<Seq<char>>::empty()
        } else {
            seq![ts_line("asdf_updated_at"@, v.update_cache.asdf_updated_at)]
        });
        proof {
            assert(lines.deep_view() =~~= part2);
        }
        let n1 = self.installed.len();
        let mut i: usize = 0;
        proof {
            assert(v.installed.take(0) =~= Seq::<AsdfInstalledView>::empty());
            assert(inst_lines(Seq::<AsdfInstalledView>::empty()) =~~= Seq::<Seq<char>>::empty());
        }
        while i < n1
            invariant
                i <= n1,
                n1 == self.installed@.len(),
                v == self@,
                n1 == v.installed.len(),
                lines.deep_view() =~~= part2 + inst_lines(v.installed.take(i as int)),
            decreases n1 - i,
        {
            proof {
                assert(self.installed.deep_view()[i as int] == self.installed@[i as int]@);
            }
            let ghost ldv0 = lines.deep_view();
            lines.push(installed_line_exec(&self.installed[i]));
            proof {
                assert(lines.deep_view() =~~= ldv0.push(installed_line(v.installed[i as int])));
                lemma_inst_lines_take(v.installed, i as int);
                assert((part2 + inst_lines(v.installed.take(i as int))).push(
                    installed_line(v.installed[i as int]),
                ) =~~= part2 + inst_lines(v.installed.take(i as int)).push(
                    installed_line(v.installed[i as int]),
                ));
                assert(lines.deep_view() =~~= part2 + inst_lines(v.installed.take(i as int + 1)));
            }
            i = i + 1;
        }
        let ghost part3 = part2 + inst_lines(v.installed);
        proof {
            assert(v.installed.take(n1 as int) =~= v.installed);
            assert(lines.deep_view() =~~= part3);
        }
        let n2 = self.update_cache.plugins_updated_at.len();
        let mut j: usize = 0;
        proof {
            let ghost st = v.update_cache.plugins_updated_at;
            assert(st.take(0) =~= Seq::<PluginStampView>::empty());
            assert(stamp_lines(Seq::<PluginStampView>::empty()) =~~= Seq::<Seq<char>>::empty());
        }
        while j < n2
            invariant
                j <= n2,
                n2 == self.update_cache.plugins_updated_at@.len(),
                v == self@,
                self@.wf(),
                n2 == v.update_cache.plugins_updated_at.len(),
                lines.deep_view() =~~= part3 + stamp_lines(
                    v.update_cache.plugins_updated_at.take(j as int),
                ),
                forall|k: int|
                    0 <= k < j ==> clean_token(
                        rfc3339_of(#[trigger] v.update_cache.plugins_updated_at[k].updated_at as i64),
                    ),
            decreases n2 - j,
        {
            let ghost st = v.update_cache.plugins_updated_at;
            proof {
                assert(self.update_cache.plugins_updated_at.deep_view()[j as int]
                    == self.update_cache.plugins_updated_at@[j as int]@);
                assert(valid_ts_int(st[j as int].updated_at));
            }
            let ghost ldv0 = lines.deep_view();
            lines.push(stamp_line_exec(&self.update_cache.plugins_updated_at[j]));
            proof {
                assert(lines.deep_view() =~~= ldv0.push(stamp_line(st[j as int])));
                lemma_stamp_lines_take(st, j as int);
                assert((part3 + stamp_lines(st.take(j as int))).push(stamp_line(st[j as int]))
                    =~~= part3 + stamp_lines(st.take(j as int)).push(stamp_line(st[j as int])));
                assert(lines.deep_view() =~~= part3 + stamp_lines(st.take(j as int + 1)));
            }
            j = j + 1;
        }
        let ghost part4 = part3 + stamp_lines(v.update_cache.plugins_updated_at);
        proof {
            assert(v.update_cache.plugins_updated_at.take(n2 as int)
                =~= v.update_cache.plugins_updated_at);
            assert(lines.deep_view() =~~= part4);
        }
        let n3 = self.update_cache.plugins_versions.len();
        let mut k: usize = 0;
        proof {
            let ghost pvs = v.update_cache.plugins_versions;
            assert(pvs.take(0) =~= Seq::<PluginVersionsEntryView>::empty());
            assert(pv_lines(Seq::<PluginVersionsEntryView>::empty()) =~~= Seq::<Seq<char>>::empty());
        }
        while k < n3
            invariant
                k <= n3,
                n3 == self.update_cache.plugins_versions@.len(),
                v == self@,
                self@.wf(),
                n3 == v.update_cache.plugins_versions.len(),
                lines.deep_view() =~~= part4 + pv_lines(
                    v.update_cache.plugins_versions.take(k as int),
                ),
                forall|m: int|
                    0 <= m < k ==> clean_token(
                        rfc3339_of(
                            #[trigger] v.update_cache.plugins_versions[m].value.updated_at as i64,
                        ),
                    ),
            decreases n3 - k,
        {
            let ghost pvs = v.update_cache.plugins_versions;
            proof {
                assert(self.update_cache.plugins_versions.deep_view()[k as int]
                    == self.update_cache.plugins_versions@[k as int]@);
                assert((pvs[k as int].value).wf());
            }
            let ghost ldv0 = lines.deep_view();
            lines.push(pv_line_exec(&self.update_cache.plugins_versions[k]));
            proof {
                assert(lines.deep_view() =~~= ldv0.push(pv_line(pvs[k as int])));
                lemma_pv_lines_take(pvs, k as int);
                assert((part4 + pv_lines(pvs.take(k as int))).push(pv_line(pvs[k as int]))
                    =~~= part4 + pv_lines(pvs.take(k as int)).push(pv_line(pvs[k as int])));
                assert(lines.deep_view() =~~= part4 + pv_lines(pvs.take(k as int + 1)));
            }
            k = k + 1;
        }
        proof {
            assert(v.update_cache.plugins_versions.take(n3 as int)
                =~= v.update_cache.plugins_versions);
            assert(lines.deep_view() =~~= spec_lines(v));
        }
        strutil::join_lines(&lines)
    }
}

/// One timestamp token: parsed, and held to the representable range.
fn parse_ts(tok: &str) -> (r: Option<i64>)
    ensures
        match r {
            Some(t) => clock::valid_ts(t),
            None => true,
        },
        forall|t: i64|
            clock::valid_ts(t) && tok@ == #[trigger] rfc3339_of(t) ==> r == Some(t),
{
    match clock::parse_rfc3339(tok) {
        Some(t) => {
            if 0 <= t && t <= clock::MAX_RFC3339_SECS {
                Some(t)
            } else {
                None
            }
        },
        None => None,
    }
}

/// The record tags are non-empty, separator-free, and pairwise distinct.
proof fn lemma_tag_facts()
    ensures
        clean_token("updated_at"@),
        clean_token("asdf_updated_at"@),
        clean_token("installed"@),
        clean_token("plugin_updated_at"@),
        clean_token("plugin_versions"@),
        "updated_at"@ != "asdf_updated_at"@,
        "updated_at"@ != "installed"@,
        "updated_at"@ != "plugin_updated_at"@,
        "updated_at"@ != "plugin_versions"@,
        "asdf_updated_at"@ != "installed"@,
        "asdf_updated_at"@ != "plugin_updated_at"@,
        "asdf_updated_at"@ != "plugin_versions"@,
        "installed"@ != "plugin_updated_at"@,
        "installed"@ != "plugin_versions"@,
        "plugin_updated_at"@ != "plugin_versions"@,
{
    reveal_strlit("updated_at");
    reveal_strlit("asdf_updated_at");
    reveal_strlit("installed");
    reveal_strlit("plugin_updated_at");
    reveal_strlit("plugin_versions");
    assert("asdf_updated_at"@[0] != "plugin_versions"@[0]);
}

proof fn lemma_clean_no_char(s: Seq<char>)
    requires
        clean_token(s),
    ensures
        !seq_has_char(s, ' '),
        !seq_has_char(s, '\n'),
{
}

proof fn lemma_escape_clean(s: Seq<char>)
    ensures
        !seq_has_char(spec_escape(s), ' '),
        !seq_has_char(spec_escape(s), '\n'),
{
    strutil::lemma_escape_no_sep(s);
}

/// The exact tokens of a timestamp record.
proof fn lemma_ts_line_tokens(tag: Seq<char>, t: int)
    requires
        clean_token(tag),
        clean_token(rfc3339_of(t as i64)),
    ensures
        spec_split(ts_line(tag, t), ' ') == seq![tag, rfc3339_of(t as i64)],
        ts_line(tag, t).len() > 0,
        !seq_has_char(ts_line(tag, t), '\n'),
{
    let toks = seq![tag, rfc3339_of(t as i64)];
    assert(forall|i: int| 0 <= i < toks.len() ==> !seq_has_char(#[trigger] toks[i], ' ')) by {
        lemma_clean_no_char(tag);
        lemma_clean_no_char(rfc3339_of(t as i64));
    }
    assert(forall|i: int| 0 <= i < toks.len() ==> !seq_has_char(#[trigger] toks[i], '\n')) by {
        lemma_clean_no_char(tag);
        lemma_clean_no_char(rfc3339_of(t as i64));
    }
    strutil::lemma_join_split(toks, ' ');
    strutil::lemma_join_nonempty(toks, ' ');
    strutil::lemma_join_free(toks, ' ', '\n');
}

/// The exact tokens of an installed record.
proof fn lemma_installed_line_tokens(e: AsdfInstalledView)
    ensures
        spec_split(installed_line(e), ' ') == seq![
            "installed"@,
            spec_escape(e.tool),
            spec_escape(e.version),
        ] + esc_all(e.required_by),
        installed_line(e).len() > 0,
        !seq_has_char(installed_line(e), '\n'),
{
    lemma_tag_facts();
    let toks = seq!["installed"@, spec_escape(e.tool), spec_escape(e.version)] + esc_all(
        e.required_by,
    );
    assert(forall|i: int|
        0 <= i < toks.len() ==> !seq_has_char(#[trigger] toks[i], ' ') && !seq_has_char(
            toks[i],
            '\n',
        )) by {
        lemma_clean_no_char("installed"@);
        lemma_escape_clean(e.tool);
        lemma_escape_clean(e.version);
        assert forall|i: int| 3 <= i < toks.len() implies !seq_has_char(
            #[trigger] toks[i],
            ' ',
        ) && !seq_has_char(toks[i], '\n') by {
            assert(toks[i] == spec_escape(e.required_by[i - 3]));
            lemma_escape_clean(e.required_by[i - 3]);
        }
    }
    strutil::lemma_join_split(toks, ' ');
    strutil::lemma_join_nonempty(toks, ' ');
    strutil::lemma_join_free(toks, ' ', '\n');
}

/// The exact tokens of a plugin stamp record.
proof fn lemma_stamp_line_tokens(e: PluginStampView)
    requires
        clean_token(rfc3339_of(e.updated_at as i64)),
    ensures
        spec_split(stamp_line(e), ' ') == seq![
            "plugin_updated_at"@,
            spec_escape(e.plugin),
            rfc3339_of(e.updated_at as i64),
        ],
        stamp_line(e).len() > 0,
        !seq_has_char(stamp_line(e), '\n'),
{
    lemma_tag_facts();
    let toks = seq![
        "plugin_updated_at"@,
        spec_escape(e.plugin),
        rfc3339_of(e.updated_at as i64),
    ];
    assert(forall|i: int|
        0 <= i < toks.len() ==> !seq_has_char(#[trigger] toks[i], ' ') && !seq_has_char(
            toks[i],
            '\n',
        )) by {
        lemma_clean_no_char("plugin_updated_at"@);
        lemma_escape_clean(e.plugin);
        lemma_clean_no_char(rfc3339_of(e.updated_at as i64));
    }
    strutil::lemma_join_split(toks, ' ');
    strutil::lemma_join_nonempty(toks, ' ');
    strutil::lemma_join_free(toks, ' ', '\n');
}

/// The exact tokens of a plugin version-list record.
proof fn lemma_pv_line_tokens(e: PluginVersionsEntryView)
    requires
        clean_token(rfc3339_of(e.value.updated_at as i64)),
    ensures
        spec_split(pv_line(e), ' ') == seq![
            "plugin_versions"@,
            spec_escape(e.plugin),
            rfc3339_of(e.value.updated_at as i64),
        ] + esc_all(e.value.versions),
        pv_line(e).len() > 0,
        !seq_has_char(pv_line(e), '\n'),
{
    lemma_tag_facts();
    let toks = seq![
        "plugin_versions"@,
        spec_escape(e.plugin),
        rfc3339_of(e.value.updated_at as i64),
    ] + esc_all(e.value.versions);
    assert(forall|i: int|
        0 <= i < toks.len() ==> !seq_has_char(#[trigger] toks[i], ' ') && !seq_has_char(
            toks[i],
            '\n',
        )) by {
        lemma_clean_no_char("plugin_versions"@);
        lemma_escape_clean(e.plugin);
        lemma_clean_no_char(rfc3339_of(e.value.updated_at as i64));
        assert forall|i: int| 3 <= i < toks.len() implies !seq_has_char(
            #[trigger] toks[i],
            ' ',
        ) && !seq_has_char(toks[i], '\n') by {
            assert(toks[i] == spec_escape(e.value.versions[i - 3]));
            lemma_escape_clean(e.value.versions[i - 3]);
        }
    }
    strutil::lemma_join_split(toks, ' ');
    strutil::lemma_join_nonempty(toks, ' ');
    strutil::lemma_join_free(toks, ' ', '\n');
}

/// Every record of a well-formed cache is a non-empty, single-line text.
proof fn lemma_clean_lines(v: AsdfOperationCacheView)
    requires
        v.wf(),
        rfc_tokens_clean(v),
    ensures
        forall|j: int|
            0 <= j < spec_lines(v).len() ==> (#[trigger] spec_lines(v)[j]).len() > 0
                && !seq_has_char(spec_lines(v)[j], '\n'),
{
    lemma_tag_facts();
    let ls = spec_lines(v);
    assert forall|j: int| 0 <= j < ls.len() implies (#[trigger] ls[j]).len() > 0 && !seq_has_char(
        ls[j],
        '\n',
    ) by {
        let c1: int = if v.updated_at == 0 {
            0
        } else {
            1
        };
        let c2: int = c1 + (if v.update_cache.asdf_updated_at == 0 {
            0int
        } else {
            1
        });
        let ni = v.installed.len() as int;
        let ns = v.update_cache.plugins_updated_at.len() as int;
        if j < c1 {
            lemma_ts_line_tokens("updated_at"@, v.updated_at);
        } else if j < c2 {
            lemma_ts_line_tokens("asdf_updated_at"@, v.update_cache.asdf_updated_at);
        } else if j < c2 + ni {
            assert(ls[j] == installed_line(v.installed[j - c2]));
            lemma_installed_line_tokens(v.installed[j - c2]);
        } else if j < c2 + ni + ns {
            assert(ls[j] == stamp_line(v.update_cache.plugins_updated_at[j - c2 - ni]));
            lemma_stamp_line_tokens(v.update_cache.plugins_updated_at[j - c2 - ni]);
        } else {
            assert(ls[j] == pv_line(v.update_cache.plugins_versions[j - c2 - ni - ns]));
            lemma_pv_line_tokens(v.update_cache.plugins_versions[j - c2 - ni - ns]);
        }
    }
}

pub open spec fn clampi(x: int, lo: int, hi: int) -> int {
    if x < lo {
        lo
    } else if x > hi {
        hi
    } else {
        x
    }
}

/// How many records `v` writes.
pub open spec fn spec_nlines(v: AsdfOperationCacheView) -> int {
    spec_lines(v).len() as int
}

/// The cache state after reading the first `n` records of `v`, in the
/// order `spec_lines` writes them.
pub open spec fn prefix_state(v: AsdfOperationCacheView, n: int) -> AsdfOperationCacheView {
    let c1: int = if v.updated_at == 0 {
        0
    } else {
        1
    };
    let c2: int = c1 + (if v.update_cache.asdf_updated_at == 0 {
        0int
    } else {
        1
    });
    let ni = v.installed.len() as int;
    let ns = v.update_cache.plugins_updated_at.len() as int;
    let nv = v.update_cache.plugins_versions.len() as int;
    AsdfOperationCacheView {
        updated_at: if v.updated_at != 0 && n >= 1 {
            v.updated_at
        } else {
            0
        },
        update_cache: crate::asdf_operation::AsdfOperationUpdateCacheView {
            asdf_updated_at: if v.update_cache.asdf_updated_at != 0 && n >= c2 {
                v.update_cache.asdf_updated_at
            } else {
                0
            },
            plugins_updated_at: v.update_cache.plugins_updated_at.take(
                clampi(n - c2 - ni, 0, ns),
            ),
            plugins_versions: v.update_cache.plugins_versions.take(
                clampi(n - c2 - ni - ns, 0, nv),
            ),
        },
        installed: v.installed.take(clampi(n - c2, 0, ni)),
    }
}

proof fn lemma_prefix_bounds(v: AsdfOperationCacheView)
    ensures
        prefix_state(v, 0) == AsdfOperationCacheView::empty(),
        prefix_state(v, spec_nlines(v)) == v,
{
    assert(prefix_state(v, 0).installed =~= Seq::<AsdfInstalledView>::empty());
    assert(prefix_state(v, 0).update_cache.plugins_updated_at =~= Seq::<
        PluginStampView,
    >::empty());
    assert(prefix_state(v, 0).update_cache.plugins_versions =~= Seq::<
        PluginVersionsEntryView,
    >::empty());
    let n = spec_nlines(v);
    assert(prefix_state(v, n).installed =~= v.installed);
    assert(prefix_state(v, n).update_cache.plugins_updated_at
        =~= v.update_cache.plugins_updated_at);
    assert(prefix_state(v, n).update_cache.plugins_versions =~= v.update_cache.plugins_versions);
}

/// Read one record into `cache`. An empty line is skipped, an unknown tag
/// is ignored, and each well-formed record lands exactly as stated; false
/// marks a malformed record, an out-of-range instant, or a duplicated key.
fn decode_line(cache: &mut AsdfOperationCache, piece: &str) -> (ok: bool)
    requires
        old(cache)@.wf(),
    ensures
        final(cache)@.wf(),
        piece@.len() == 0 ==> ok && final(cache)@ == old(cache)@,
        forall|t: int|
            valid_ts_int(t) && clean_token(rfc3339_of(t as i64)) && piece@ == ts_line(
                "updated_at"@,
                t,
            ) ==> ok && final(cache)@ == (AsdfOperationCacheView { updated_at: t, ..old(cache)@ }),
        forall|t: int|
            valid_ts_int(t) && clean_token(rfc3339_of(t as i64)) && piece@ == ts_line(
                "asdf_updated_at"@,
                t,
            ) ==> ok && final(cache)@ == (AsdfOperationCacheView {
                update_cache: (crate::asdf_operation::AsdfOperationUpdateCacheView {
                    asdf_updated_at: t,
                    ..old(cache)@.update_cache
                }),
                ..old(cache)@
            }),
        forall|e: AsdfInstalledView|
            e.wf() && piece@ == installed_line(e) ==> ok == !crate::asdf_operation::inst_has(
                old(cache)@.installed,
                e.tool,
                e.version,
            ) && (ok ==> final(cache)@ == (AsdfOperationCacheView {
                installed: old(cache)@.installed.push(e),
                ..old(cache)@
            })),
        forall|e: PluginStampView|
            valid_ts_int(e.updated_at) && clean_token(rfc3339_of(e.updated_at as i64)) && piece@
                == stamp_line(e) ==> ok == !crate::asdf_operation::stamps_has(
                old(cache)@.update_cache.plugins_updated_at,
                e.plugin,
            ) && (ok ==> final(cache)@ == (AsdfOperationCacheView {
                update_cache: (crate::asdf_operation::AsdfOperationUpdateCacheView {
                    plugins_updated_at: old(cache)@.update_cache.plugins_updated_at.push(e),
                    ..old(cache)@.update_cache
                }),
                ..old(cache)@
            })),
        forall|e: PluginVersionsEntryView|
            e.value.wf() && clean_token(rfc3339_of(e.value.updated_at as i64)) && piece@
                == pv_line(e) ==> ok == !crate::asdf_operation::pv_has(
                old(cache)@.update_cache.plugins_versions,
                e.plugin,
            ) && (ok ==> final(cache)@ == (AsdfOperationCacheView {
                update_cache: (crate::asdf_operation::AsdfOperationUpdateCacheView {
                    plugins_versions: old(cache)@.update_cache.plugins_versions.push(e),
                    ..old(cache)@.update_cache
                }),
                ..old(cache)@
            })),
{
    proof {
        lemma_tag_facts();
    }
    if piece.is_empty() {
        return true;
    }
    let toks = strutil::split_str(piece, ' ');
    let ghost tv = toks.deep_view();
    let nt = toks.len();
    proof {
        assert(tv.len() == toks@.len());
        assert forall|t: int|
            clean_token(rfc3339_of(t as i64)) && piece@ == ts_line("updated_at"@, t) implies tv
            == seq!["updated_at"@, rfc3339_of(t as i64)] by {
            lemma_ts_line_tokens("updated_at"@, t);
        }
        assert forall|t: int|
            clean_token(rfc3339_of(t as i64)) && piece@ == ts_line("asdf_updated_at"@, t) implies tv
            == seq!["asdf_updated_at"@, rfc3339_of(t as i64)] by {
            lemma_ts_line_tokens("asdf_updated_at"@, t);
        }
        assert forall|e: AsdfInstalledView| piece@ == installed_line(e) implies tv == seq![
            "installed"@,
            spec_escape(e.tool),
            spec_escape(e.version),
        ] + esc_all(e.required_by) && spec_unescape(spec_escape(e.tool)) == Some(e.tool)
            && spec_unescape(spec_escape(e.version)) == Some(e.version) && (forall|j: int|
            0 <= j < e.required_by.len() ==> spec_unescape(
                spec_escape(#[trigger] e.required_by[j]),
            ) == Some(e.required_by[j])) by {
            lemma_installed_line_tokens(e);
            strutil::lemma_unescape_escape(e.tool);
            strutil::lemma_unescape_escape(e.version);
            assert forall|j: int| 0 <= j < e.required_by.len() implies spec_unescape(
                spec_escape(#[trigger] e.required_by[j]),
            ) == Some(e.required_by[j]) by {
                strutil::lemma_unescape_escape(e.required_by[j]);
            }
        }
        assert forall|e: PluginStampView|
            clean_token(rfc3339_of(e.updated_at as i64)) && piece@ == stamp_line(e) implies tv
            == seq![
            "plugin_updated_at"@,
            spec_escape(e.plugin),
            rfc3339_of(e.updated_at as i64),
        ] && spec_unescape(spec_escape(e.plugin)) == Some(e.plugin) by {
            lemma_stamp_line_tokens(e);
            strutil::lemma_unescape_escape(e.plugin);
        }
        assert forall|e: PluginVersionsEntryView|
            clean_token(rfc3339_of(e.value.updated_at as i64)) && piece@ == pv_line(e) implies tv
            == seq![
            "plugin_versions"@,
            spec_escape(e.plugin),
            rfc3339_of(e.value.updated_at as i64),
        ] + esc_all(e.value.versions) && spec_unescape(spec_escape(e.plugin)) == Some(e.plugin)
            && (forall|j: int|
            0 <= j < e.value.versions.len() ==> spec_unescape(
                spec_escape(#[trigger] e.value.versions[j]),
            ) == Some(e.value.versions[j])) by {
            lemma_pv_line_tokens(e);
            strutil::lemma_unescape_escape(e.plugin);
            assert forall|j: int| 0 <= j < e.value.versions.len() implies spec_unescape(
                spec_escape(#[trigger] e.value.versions[j]),
            ) == Some(e.value.versions[j]) by {
                strutil::lemma_unescape_escape(e.value.versions[j]);
            }
        }
        assert(tv[0] == toks@[0]@);
    }
    if strutil::str_eq(toks[0].as_str(), "updated_at") {
        if nt != 2 {
            return false;
        }
        match parse_ts(toks[1].as_str()) {
            Some(t) => {
                let ghost c0 = cache@;
                cache.updated_at = t;
                proof {
                    assert(tv[1] == toks@[1]@);
                    assert(cache@ == (AsdfOperationCacheView { updated_at: t as int, ..c0 }));
                    assert(cache@.wf());
                }
                true
            },
            None => {
                proof {
                    assert(tv[1] == toks@[1]@);
                }
                false
            },
        }
    } else if strutil::str_eq(toks[0].as_str(), "asdf_updated_at") {
        if nt != 2 {
            return false;
        }
        match parse_ts(toks[1].as_str()) {
            Some(t) => {
                let ghost c0 = cache@;
                cache.update_cache.asdf_updated_at = t;
                proof {
                    assert(tv[1] == toks@[1]@);
                    assert(cache@ == (AsdfOperationCacheView {
                        update_cache: (crate::asdf_operation::AsdfOperationUpdateCacheView {
                            asdf_updated_at: t as int,
                            ..c0.update_cache
                        }),
                        ..c0
                    }));
                    assert(cache@.wf());
                }
                true
            },
            None => {
                proof {
                    assert(tv[1] == toks@[1]@);
                }
                false
            },
        }
    } else if strutil::str_eq(toks[0].as_str(), "installed") {
        if nt < 3 {
            return false;
        }
        let tool = match strutil::unescape_token(toks[1].as_str()) {
            Some(t) => t,
            None => {
                proof {
                    assert(tv[1] == toks@[1]@);
                }
                return false;
            },
        };
        let version = match strutil::unescape_token(toks[2].as_str()) {
            Some(t) => t,
            None => {
                proof {
                    assert(tv[1] == toks@[1]@);
                    assert(tv[2] == toks@[2]@);
                }
                return false;
            },
        };
        proof {
            assert(tv[1] == toks@[1]@);
            assert(tv[2] == toks@[2]@);
        }
        match crate::asdf_operation::inst_index(&cache.installed, tool.as_str(), version.as_str()) {
            Some(_) => {
                return false;
            },
            None => {},
        }
        let mut rb: Vec<String> = Vec::new();
        let mut k: usize = 3;
        #[verifier::loop_isolation(false)]
        while k < nt
            invariant
                3 <= k <= nt,
                rb.deep_view().len() == k - 3,
                forall|j: int|
                    0 <= j < k - 3 ==> spec_unescape(tv[j + 3]) == Some(
                        #[trigger] rb.deep_view()[j],
                    ),
                forall|a: int, b: int|
                    0 <= a < b < rb.deep_view().len() ==> #[trigger] rb.deep_view()[a]
                        != #[trigger] rb.deep_view()[b],
            decreases nt - k,
        {
            proof {
                assert(tv[k as int] == toks@[k as int]@);
            }
            match strutil::unescape_token(toks[k].as_str()) {
                Some(wd) => {
                    if crate::asdf_operation::vec_contains_str(&rb, wd.as_str()) {
                        proof {
                            assert forall|e: AsdfInstalledView|
                                e.wf() && piece@ == installed_line(e) implies false by {
                                assert(tv[k as int] == spec_escape(e.required_by[k - 3]));
                                assert(wd@ == e.required_by[k - 3]);
                                let w = choose|j: int|
                                    0 <= j < rb.deep_view().len() && rb.deep_view()[j] == wd@;
                                assert(rb.deep_view()[w] == e.required_by[w]);
                            }
                        }
                        return false;
                    }
                    let ghost rb0 = rb.deep_view();
                    rb.push(wd);
                    proof {
                        assert(forall|a: int|
                            0 <= a < rb0.len() ==> #[trigger] rb.deep_view()[a] == rb0[a]);
                        assert(rb.deep_view()[rb0.len() as int] == wd@);
                        assert(!crate::asdf_operation::rb_has(rb0, wd@));
                        assert(forall|a: int| 0 <= a < rb0.len() ==> rb0[a] != wd@);
                        assert(rb.deep_view().len() == rb0.len() + 1);
                        assert(forall|a: int, b: int|
                            0 <= a < b < rb.deep_view().len() ==> #[trigger] rb.deep_view()[a]
                                != #[trigger] rb.deep_view()[b]);
                    }
                },
                None => {
                    return false;
                },
            }
            k = k + 1;
        }
        let ghost c0 = cache@;
        let ghost entry_rb = rb.deep_view();
        let ghost tool_v = tool@;
        let ghost version_v = version@;
        let entry = AsdfInstalled { tool, version, required_by: rb };
        cache.installed.push(entry);
        proof {
            let ev = AsdfInstalledView { tool: tool_v, version: version_v, required_by: entry_rb };
            assert(cache@.installed =~~= c0.installed.push(ev));
            assert(cache@ == (AsdfOperationCacheView { installed: c0.installed.push(ev), ..c0 }));
            assert(cache@.wf()) by {
                assert(forall|a: int|
                    0 <= a < c0.installed.len() ==> cache@.installed[a] == c0.installed[a]);
                assert(cache@.installed[c0.installed.len() as int] == ev);
                assert(!crate::asdf_operation::inst_has(c0.installed, tool_v, version_v));
                assert(forall|a: int|
                    0 <= a < c0.installed.len() ==> (#[trigger] c0.installed[a]).wf());
                assert(ev.wf());
                assert(cache@.update_cache == c0.update_cache);
                assert(cache@.updated_at == c0.updated_at);
            }
            assert forall|e: AsdfInstalledView| e.wf() && piece@ == installed_line(e) implies cache@
                == (AsdfOperationCacheView { installed: c0.installed.push(e), ..c0 }) by {
                assert(tool_v == e.tool);
                assert(version_v == e.version);
                assert(entry_rb =~= e.required_by) by {
                    assert(tv.len() == 3 + e.required_by.len());
                    assert(forall|j: int|
                        0 <= j < e.required_by.len() ==> tv[j + 3] == spec_escape(
                            #[trigger] e.required_by[j],
                        ));
                    assert(forall|j: int|
                        0 <= j < entry_rb.len() ==> #[trigger] entry_rb[j] == e.required_by[j]);
                }
                assert(ev == e);
            }
        }
        true
    } else if strutil::str_eq(toks[0].as_str(), "plugin_updated_at") {
        if nt != 3 {
            return false;
        }
        let plugin = match strutil::unescape_token(toks[1].as_str()) {
            Some(t) => t,
            None => {
                proof {
                    assert(tv[1] == toks@[1]@);
                }
                return false;
            },
        };
        let t = match parse_ts(toks[2].as_str()) {
            Some(t) => t,
            None => {
                proof {
                    assert(tv[1] == toks@[1]@);
                    assert(tv[2] == toks@[2]@);
                }
                return false;
            },
        };
        proof {
            assert(tv[1] == toks@[1]@);
            assert(tv[2] == toks@[2]@);
        }
        match crate::asdf_operation::stamp_index(
            &cache.update_cache.plugins_updated_at,
            plugin.as_str(),
        ) {
            Some(_) => {
                return false;
            },
            None => {},
        }
        let ghost c0 = cache@;
        let ghost plugin_v = plugin@;
        cache.update_cache.plugins_updated_at.push(PluginStamp { plugin, updated_at: t });
        proof {
            let ev = PluginStampView { plugin: plugin_v, updated_at: t as int };
            let st = cache@.update_cache.plugins_updated_at;
            assert(st =~~= c0.update_cache.plugins_updated_at.push(ev));
            assert(cache@ == (AsdfOperationCacheView {
                update_cache: (crate::asdf_operation::AsdfOperationUpdateCacheView {
                    plugins_updated_at: c0.update_cache.plugins_updated_at.push(ev),
                    ..c0.update_cache
                }),
                ..c0
            }));
            assert(cache@.wf()) by {
                assert(forall|a: int|
                    0 <= a < c0.update_cache.plugins_updated_at.len() ==> st[a]
                        == c0.update_cache.plugins_updated_at[a]);
                assert(st[c0.update_cache.plugins_updated_at.len() as int] == ev);
                assert(!crate::asdf_operation::stamps_has(
                    c0.update_cache.plugins_updated_at,
                    plugin_v,
                ));
                assert(forall|a: int|
                    0 <= a < c0.update_cache.plugins_updated_at.len() ==> valid_ts_int(
                        #[trigger] c0.update_cache.plugins_updated_at[a].updated_at,
                    ));
                assert(valid_ts_int(t as int));
                assert(cache@.update_cache.plugins_versions == c0.update_cache.plugins_versions);
                assert(cache@.update_cache.asdf_updated_at == c0.update_cache.asdf_updated_at);
                assert(cache@.installed == c0.installed);
                assert(cache@.updated_at == c0.updated_at);
            }
        }
        true
    } else if strutil::str_eq(toks[0].as_str(), "plugin_versions") {
        if nt < 3 {
            return false;
        }
        let plugin = match strutil::unescape_token(toks[1].as_str()) {
            Some(t) => t,
            None => {
                proof {
                    assert(tv[1] == toks@[1]@);
                }
                return false;
            },
        };
        let t = match parse_ts(toks[2].as_str()) {
            Some(t) => t,
            None => {
                proof {
                    assert(tv[1] == toks@[1]@);
                    assert(tv[2] == toks@[2]@);
                }
                return false;
            },
        };
        proof {
            assert(tv[1] == toks@[1]@);
            assert(tv[2] == toks@[2]@);
        }
        match crate::asdf_operation::pv_index(
            &cache.update_cache.plugins_versions,
            plugin.as_str(),
        ) {
            Some(_) => {
                return false;
            },
            None => {},
        }
        let mut versions: Vec<String> = Vec::new();
        let mut k: usize = 3;
        #[verifier::loop_isolation(false)]
        while k < nt
            invariant
                3 <= k <= nt,
                versions.deep_view().len() == k - 3,
                forall|j: int|
                    0 <= j < k - 3 ==> spec_unescape(tv[j + 3]) == Some(
                        #[trigger] versions.deep_view()[j],
                    ),
            decreases nt - k,
        {
            proof {
                assert(tv[k as int] == toks@[k as int]@);
            }
            match strutil::unescape_token(toks[k].as_str()) {
                Some(ver) => {
                    let ghost vs0 = versions.deep_view();
                    versions.push(ver);
                    proof {
                        assert(forall|a: int|
                            0 <= a < vs0.len() ==> #[trigger] versions.deep_view()[a] == vs0[a]);
                        assert(versions.deep_view()[vs0.len() as int] == ver@);
                    }
                },
                None => {
                    return false;
                },
            }
            k = k + 1;
        }
        let ghost c0 = cache@;
        let ghost vv = versions.deep_view();
        let ghost plugin_v = plugin@;
        let value = crate::asdf_operation::AsdfOperationUpdateCachePluginVersions {
            updated_at: t,
            versions,
        };
        cache.update_cache.plugins_versions.push(PluginVersionsEntry { plugin, value });
        proof {
            let ev = PluginVersionsEntryView {
                plugin: plugin_v,
                value: crate::asdf_operation::PluginVersionsView {
                    updated_at: t as int,
                    versions: vv,
                },
            };
            let pvs = cache@.update_cache.plugins_versions;
            assert(pvs =~~= c0.update_cache.plugins_versions.push(ev));
            assert(cache@ == (AsdfOperationCacheView {
                update_cache: (crate::asdf_operation::AsdfOperationUpdateCacheView {
                    plugins_versions: c0.update_cache.plugins_versions.push(ev),
                    ..c0.update_cache
                }),
                ..c0
            }));
            assert(cache@.wf()) by {
                assert(forall|a: int|
                    0 <= a < c0.update_cache.plugins_versions.len() ==> pvs[a]
                        == c0.update_cache.plugins_versions[a]);
                assert(pvs[c0.update_cache.plugins_versions.len() as int] == ev);
                assert(!crate::asdf_operation::pv_has(
                    c0.update_cache.plugins_versions,
                    plugin_v,
                ));
                assert(forall|a: int|
                    0 <= a < c0.update_cache.plugins_versions.len() ==> (
                    #[trigger] c0.update_cache.plugins_versions[a].value).wf());
                assert(ev.value.wf());
                assert(cache@.update_cache.plugins_updated_at
                    == c0.update_cache.plugins_updated_at);
                assert(cache@.update_cache.asdf_updated_at == c0.update_cache.asdf_updated_at);
                assert(cache@.installed == c0.installed);
                assert(cache@.updated_at == c0.updated_at);
            }
            assert forall|e: PluginVersionsEntryView|
                e.value.wf() && clean_token(rfc3339_of(e.value.updated_at as i64)) && piece@
                    == pv_line(e) implies cache@ == (AsdfOperationCacheView {
                update_cache: (crate::asdf_operation::AsdfOperationUpdateCacheView {
                    plugins_versions: c0.update_cache.plugins_versions.push(e),
                    ..c0.update_cache
                }),
                ..c0
            }) by {
                assert(plugin_v == e.plugin);
                assert(vv =~= e.value.versions) by {
                    assert(tv.len() == 3 + e.value.versions.len());
                    assert(forall|j: int|
                        0 <= j < e.value.versions.len() ==> tv[j + 3] == spec_escape(
                            #[trigger] e.value.versions[j],
                        ));
                    assert(forall|j: int|
                        0 <= j < vv.len() ==> #[trigger] vv[j] == e.value.versions[j]);
                }
                assert(ev == e);
            }
        }
        true
    } else {
        true
    }
}

impl AsdfOperationCache {
    /// Parse persisted text back into a cache. Unknown record kinds are
    /// ignored so newer files still load; a malformed known record, an
    /// out-of-range instant, or a duplicated key marks the text corrupt.
    /// Corrupt text yields `None`, never a panic; and text that `encode`
    /// produced for a well-formed cache always decodes back to that cache,
    /// the serialization round trip.
    pub fn decode(s: &str) -> (r: Option<AsdfOperationCache>)
        ensures
            match r {
                Some(c) => c@.wf(),
                None => true,
            },
            forall|v: AsdfOperationCacheView|
                v.wf() && rfc_tokens_clean(v) && s@ == #[trigger] spec_encode(v) ==> (r matches Some(c)
                    && c@ == v),
    {
        let pieces = strutil::split_str(s, '\n');
        let mut cache = AsdfOperationCache::new_empty();
        let np = pieces.len();
        let mut i: usize = 0;
        proof {
            assert forall|v: AsdfOperationCacheView|
                v.wf() && rfc_tokens_clean(v) && s@ == #[trigger] spec_encode(v) implies cache@
                == prefix_state(v, clampi(0, 0, spec_nlines(v))) by {
                lemma_prefix_bounds(v);
            }
        }
        while i < np
            invariant
                i <= np,
                np == pieces@.len(),
                cache@.wf(),
                pieces.deep_view() == spec_split(s@, '\n'),
                forall|v: AsdfOperationCacheView|
                    v.wf() && rfc_tokens_clean(v) && s@ == #[trigger] spec_encode(v) ==> cache@
                        == prefix_state(v, clampi(i as int, 0, spec_nlines(v))),
            decreases np - i,
        {
            let ghost pre = cache@;
            let piece = pieces[i].as_str();
            proof {
                assert(piece@ == pieces.deep_view()[i as int]);
            }
            let ok = decode_line(&mut cache, piece);
            proof {
                assert forall|v: AsdfOperationCacheView|
                    v.wf() && rfc_tokens_clean(v) && s@ == #[trigger] spec_encode(v) implies ok
                    && cache@ == prefix_state(v, clampi(i as int + 1, 0, spec_nlines(v))) by {
                    lemma_clean_lines(v);
                    let n = i as int;
                    if spec_nlines(v) == 0 {
                        assert(spec_lines(v).len() == 0);
                        assert(spec_encode(v) =~= Seq::<char>::empty());
                        assert(s@.len() == 0);
                        assert(spec_split(s@, '\n') =~~= seq![Seq::<char>::empty()]);
                        assert(piece@ =~= Seq::<char>::empty());
                        assert(ok && cache@ == pre);
                        assert(pre == prefix_state(v, clampi(n, 0, 0)));
                        assert(cache@ == prefix_state(v, clampi(n + 1, 0, 0)));
                    } else {
                        strutil::lemma_join_split(spec_lines(v), '\n');
                        assert(pieces.deep_view() == spec_lines(v));
                        assert(np == spec_nlines(v));
                        assert(0 <= n < spec_nlines(v));
                        assert(piece@ == spec_lines(v)[n]);
                        assert(pre == prefix_state(v, clampi(n, 0, spec_nlines(v))));
                        assert(pre == prefix_state(v, n));
                        let c1: int = if v.updated_at == 0 {
                            0
                        } else {
                            1
                        };
                        let c2: int = c1 + (if v.update_cache.asdf_updated_at == 0 {
                            0int
                        } else {
                            1
                        });
                        let ni = v.installed.len() as int;
                        let ns = v.update_cache.plugins_updated_at.len() as int;
                        let nv = v.update_cache.plugins_versions.len() as int;
                        if n < c1 {
                            assert(piece@ == ts_line("updated_at"@, v.updated_at));
                            assert(valid_ts_int(v.updated_at));
                            assert(clean_token(rfc3339_of(v.updated_at as i64)));
                            assert(ok);
                            assert(cache@ == (AsdfOperationCacheView {
                                updated_at: v.updated_at,
                                ..pre
                            }));
                            assert(cache@.installed =~= prefix_state(v, n + 1).installed);
                            assert(cache@.update_cache.plugins_updated_at =~= prefix_state(
                                v,
                                n + 1,
                            ).update_cache.plugins_updated_at);
                            assert(cache@.update_cache.plugins_versions =~= prefix_state(
                                v,
                                n + 1,
                            ).update_cache.plugins_versions);
                            assert(cache@ == prefix_state(v, n + 1));
                        } else if n < c2 {
                            assert(piece@ == ts_line(
                                "asdf_updated_at"@,
                                v.update_cache.asdf_updated_at,
                            ));
                            assert(valid_ts_int(v.update_cache.asdf_updated_at));
                            assert(clean_token(rfc3339_of(v.update_cache.asdf_updated_at as i64)));
                            assert(ok);
                            assert(cache@ == (AsdfOperationCacheView {
                                update_cache: (crate::asdf_operation::AsdfOperationUpdateCacheView {
                                    asdf_updated_at: v.update_cache.asdf_updated_at,
                                    ..pre.update_cache
                                }),
                                ..pre
                            }));
                            assert(cache@.installed =~= prefix_state(v, n + 1).installed);
                            assert(cache@.update_cache.plugins_updated_at =~= prefix_state(
                                v,
                                n + 1,
                            ).update_cache.plugins_updated_at);
                            assert(cache@.update_cache.plugins_versions =~= prefix_state(
                                v,
                                n + 1,
                            ).update_cache.plugins_versions);
                            assert(cache@ == prefix_state(v, n + 1));
                        } else if n < c2 + ni {
                            let e = v.installed[n - c2];
                            assert(spec_lines(v)[n] == inst_lines(v.installed)[n - c2]);
                            assert(piece@ == installed_line(e));
                            assert(e.wf());
                            assert(pre.installed == v.installed.take(n - c2));
                            assert(!crate::asdf_operation::inst_has(
                                pre.installed,
                                e.tool,
                                e.version,
                            )) by {
                                assert(forall|a: int|
                                    0 <= a < n - c2 ==> #[trigger] pre.installed[a]
                                        == v.installed[a]);
                            }
                            assert(ok);
                            assert(cache@ == (AsdfOperationCacheView {
                                installed: pre.installed.push(e),
                                ..pre
                            }));
                            assert(cache@.installed =~= prefix_state(v, n + 1).installed);
                            assert(cache@.update_cache.plugins_updated_at =~= prefix_state(
                                v,
                                n + 1,
                            ).update_cache.plugins_updated_at);
                            assert(cache@.update_cache.plugins_versions =~= prefix_state(
                                v,
                                n + 1,
                            ).update_cache.plugins_versions);
                            assert(cache@ == prefix_state(v, n + 1));
                        } else if n < c2 + ni + ns {
                            let e = v.update_cache.plugins_updated_at[n - c2 - ni];
                            assert(spec_lines(v)[n] == stamp_lines(
                                v.update_cache.plugins_updated_at,
                            )[n - c2 - ni]);
                            assert(piece@ == stamp_line(e));
                            assert(valid_ts_int(e.updated_at));
                            assert(clean_token(rfc3339_of(e.updated_at as i64)));
                            assert(pre.update_cache.plugins_updated_at
                                == v.update_cache.plugins_updated_at.take(n - c2 - ni));
                            assert(!crate::asdf_operation::stamps_has(
                                pre.update_cache.plugins_updated_at,
                                e.plugin,
                            )) by {
                                assert(forall|a: int|
                                    0 <= a < n - c2 - ni
                                        ==> #[trigger] pre.update_cache.plugins_updated_at[a]
                                        == v.update_cache.plugins_updated_at[a]);
                            }
                            assert(ok);
                            assert(cache@ == (AsdfOperationCacheView {
                                update_cache: (crate::asdf_operation::AsdfOperationUpdateCacheView {
                                    plugins_updated_at: pre.update_cache.plugins_updated_at.push(
                                        e,
                                    ),
                                    ..pre.update_cache
                                }),
                                ..pre
                            }));
                            assert(cache@.installed =~= prefix_state(v, n + 1).installed);
                            assert(cache@.update_cache.plugins_updated_at =~= prefix_state(
                                v,
                                n + 1,
                            ).update_cache.plugins_updated_at);
                            assert(cache@.update_cache.plugins_versions =~= prefix_state(
                                v,
                                n + 1,
                            ).update_cache.plugins_versions);
                            assert(cache@ == prefix_state(v, n + 1));
                        } else {
                            let e = v.update_cache.plugins_versions[n - c2 - ni - ns];
                            assert(spec_lines(v)[n] == pv_lines(
                                v.update_cache.plugins_versions,
                            )[n - c2 - ni - ns]);
                            assert(piece@ == pv_line(e));
                            assert(e.value.wf());
                            assert(clean_token(rfc3339_of(e.value.updated_at as i64)));
                            assert(pre.update_cache.plugins_versions
                                == v.update_cache.plugins_versions.take(n - c2 - ni - ns));
                            assert(!crate::asdf_operation::pv_has(
                                pre.update_cache.plugins_versions,
                                e.plugin,
                            )) by {
                                assert(forall|a: int|
                                    0 <= a < n - c2 - ni - ns
                                        ==> #[trigger] pre.update_cache.plugins_versions[a]
                                        == v.update_cache.plugins_versions[a]);
                            }
                            assert(ok);
                            assert(cache@ == (AsdfOperationCacheView {
                                update_cache: (crate::asdf_operation::AsdfOperationUpdateCacheView {
                                    plugins_versions: pre.update_cache.plugins_versions.push(e),
                                    ..pre.update_cache
                                }),
                                ..pre
                            }));
                            assert(cache@.installed =~= prefix_state(v, n + 1).installed);
                            assert(cache@.update_cache.plugins_updated_at =~= prefix_state(
                                v,
                                n + 1,
                            ).update_cache.plugins_updated_at);
                            assert(cache@.update_cache.plugins_versions =~= prefix_state(
                                v,
                                n + 1,
                            ).update_cache.plugins_versions);
                            assert(cache@ == prefix_state(v, n + 1));
                        }
                    }
                }
            }
            if !ok {
                return None;
            }
            i = i + 1;
        }
        proof {
            assert forall|v: AsdfOperationCacheView|
                v.wf() && rfc_tokens_clean(v) && s@ == #[trigger] spec_encode(v) implies cache@
                == v by {
                lemma_clean_lines(v);
                if spec_nlines(v) >= 1 {
                    strutil::lemma_join_split(spec_lines(v), '\n');
                    assert(pieces.deep_view() == spec_lines(v));
                    assert(np == spec_nlines(v));
                    lemma_prefix_bounds(v);
                } else {
                    assert(spec_lines(v).len() == 0);
                    assert(v.updated_at == 0 && v.update_cache.asdf_updated_at == 0);
                    assert(v.installed.len() == 0) by {
                        assert(spec_lines(v).len() >= inst_lines(v.installed).len());
                    }
                    assert(v.update_cache.plugins_updated_at.len() == 0) by {
                        assert(spec_lines(v).len() >= stamp_lines(
                            v.update_cache.plugins_updated_at,
                        ).len());
                    }
                    assert(v.update_cache.plugins_versions.len() == 0) by {
                        assert(spec_lines(v).len() >= pv_lines(
                            v.update_cache.plugins_versions,
                        ).len());
                    }
                    lemma_prefix_bounds(v);
                    assert(prefix_state(v, 0) == AsdfOperationCacheView::empty());
                    assert(v.installed =~= Seq::<AsdfInstalledView>::empty());
                    assert(v.update_cache.plugins_updated_at =~= Seq::<PluginStampView>::empty());
                    assert(v.update_cache.plugins_versions =~= Seq::<
                        PluginVersionsEntryView,
                    >::empty());
                    assert(v == AsdfOperationCacheView::empty());
                }
            }
        }
        Some(cache)
    }

    /// The best-effort read: absent or corrupt text degrades to the empty
    /// cache, never to an error.
    /// The read-side recovery policy in one statement: the decoded value
    /// when there is one, the empty cache otherwise.
    pub fn unwrap_or_empty(d: Option<AsdfOperationCache>) -> (r: AsdfOperationCache)
        ensures
            match d {
                Some(c) => r == c,
                None => r@ == AsdfOperationCacheView::empty() && r@.wf(),
            },
    {
        match d {
            Some(c) => c,
            None => Self::new_empty(),
        }
    }

    /// Absent text yields the empty cache; text that `encode` produced for
    /// a well-formed cache yields exactly that cache; and any other text —
    /// including corrupt bytes — yields a well-formed value, never an error
    /// or a panic. Which texts the reader rejects (and so degrade to the
    /// empty cache) is fixed by `decode`'s body rather than by a contract:
    /// the trusted instant parser's acceptance away from the formatter's
    /// own output is not specifiable, so the corrupt branch is pinned by
    /// `unwrap_or_empty` and exercised by tests.
    pub fn decode_or_empty(s: Option<&str>) -> (r: AsdfOperationCache)
        ensures
            r@.wf(),
            s is None ==> r@ == AsdfOperationCacheView::empty(),
            forall|v: AsdfOperationCacheView|
                v.wf() && rfc_tokens_clean(v) && (s matches Some(t) && t@ == #[trigger] spec_encode(
                    v,
                )) ==> r@ == v,
    {
        match s {
            Some(text) => Self::unwrap_or_empty(Self::decode(text)),
            None => Self::new_empty(),
        }
    }
}

} // verus!
