//! The custom up step: user-supplied shell commands for meeting, checking
//! and reverting a requirement. Only the configuration reading lives here;
//! running the commands is the surrounding program's work.
use vstd::prelude::*;
use vstd::string::StrSliceExecFns;
use vstd::string::StringExecFns;

use crate::config_value::ConfigValue;

verus! {

pub open spec fn spec_is_space(c: char) -> bool {
    c == ' ' || c == '\t' || c == '\n' || c == '\r'
}

pub open spec fn spec_skip_spaces(s: Seq<char>) -> Seq<char>
    decreases s.len(),
{
    if s.len() > 0 && spec_is_space(s[0]) {
        spec_skip_spaces(s.drop_first())
    } else {
        s
    }
}

pub open spec fn spec_take_word(s: Seq<char>) -> Seq<char>
    decreases s.len(),
{
    if s.len() > 0 && !spec_is_space(s[0]) {
        seq![s[0]] + spec_take_word(s.drop_first())
    } else {
        Seq::empty()
    }
}

/// The first whitespace-delimited word of `s`; empty when `s` holds none.
pub open spec fn spec_first_word(s: Seq<char>) -> Seq<char> {
    spec_take_word(spec_skip_spaces(s))
}

fn first_word(s: &str) -> (r: String)
    ensures
        r@ == spec_first_word(s@),
{
    let n = s.unicode_len();
    let mut i: usize = 0;
    proof {
        assert(s@.skip(0) =~= s@);
    }
    while i < n && is_space(s.get_char(i))
        invariant
            i <= n,
            n == s@.len(),
            spec_skip_spaces(s@) == spec_skip_spaces(s@.skip(i as int)),
        decreases n - i,
    {
        proof {
            let tail = s@.skip(i as int);
            assert(tail.len() > 0 && tail[0] == s@[i as int]);
            assert(tail.drop_first() =~= s@.skip(i as int + 1));
        }
        i = i + 1;
    }
    proof {
        if i == n {
            assert(s@.skip(n as int) =~= Seq::<char>::empty());
        }
        assert(spec_skip_spaces(s@) == s@.skip(i as int));
    }
    let mut out = String::new();
    let mut j = i;
    while j < n && !is_space(s.get_char(j))
        invariant
            i <= j <= n,
            n == s@.len(),
            spec_skip_spaces(s@) == s@.skip(i as int),
            spec_take_word(s@.skip(i as int)) == out@ + spec_take_word(s@.skip(j as int)),
        decreases n - j,
    {
        let piece = s.substring_char(j, j + 1);
        proof {
            assert(piece@ =~= seq![s@[j as int]]);
        }
        let ghost out0 = out@;
        out.append(piece);
        proof {
            let tail = s@.skip(j as int);
            assert(tail.len() > 0 && tail[0] == s@[j as int]);
            assert(tail.drop_first() =~= s@.skip(j as int + 1));
            assert(out0 + (seq![s@[j as int]] + spec_take_word(s@.skip(j as int + 1))) =~= out@
                + spec_take_word(s@.skip(j as int + 1)));
        }
        j = j + 1;
    }
    proof {
        if j == n {
            assert(s@.skip(n as int) =~= Seq::<char>::empty());
        }
        assert(spec_take_word(s@.skip(j as int)) =~= Seq::<char>::empty());
        assert(out@ + Seq::<char>::empty() =~= out@);
    }
    out
}

fn is_space(c: char) -> (r: bool)
    ensures
        r == spec_is_space(c),
{
    c == ' ' || c == '\t' || c == '\n' || c == '\r'
}

/// A custom step: its commands and its display name and directory.
#[derive(Debug, Clone)]
pub struct UpConfigCustom {
    pub meet: String,
    pub met: Option<String>,
    pub unmeet: Option<String>,
    pub name: Option<String>,
    pub dir: Option<String>,
}

impl UpConfigCustom {
    /// Reads the step; every field is the key's scalar read as text, and a
    /// missing `meet` command defaults to the empty command.
    pub fn from_config_value(config_value: Option<&ConfigValue>) -> (r: Self)
        ensures
            match config_value {
                Some(cv) => {
                    &&& r.meet@ == cv.spec_get_as_str_forced("meet"@).unwrap_or(Seq::<char>::empty())
                    &&& (match r.met {
                        Some(m) => cv.spec_get_as_str_forced("met?"@) == Some(m@),
                        None => cv.spec_get_as_str_forced("met?"@) is None,
                    })
                    &&& (match r.unmeet {
                        Some(m) => cv.spec_get_as_str_forced("unmeet"@) == Some(m@),
                        None => cv.spec_get_as_str_forced("unmeet"@) is None,
                    })
                    &&& (match r.name {
                        Some(m) => cv.spec_get_as_str_forced("name"@) == Some(m@),
                        None => cv.spec_get_as_str_forced("name"@) is None,
                    })
                    &&& (match r.dir {
                        Some(m) => cv.spec_get_as_str_forced("dir"@) == Some(m@),
                        None => cv.spec_get_as_str_forced("dir"@) is None,
                    })
                },
                None => r.meet@.len() == 0 && r.met is None && r.unmeet is None && r.name is None
                    && r.dir is None,
            },
    {
        match config_value {
            Some(cv) => {
                let meet = match cv.get_as_str_forced("meet") {
                    Some(v) => v,
                    None => String::new(),
                };
                UpConfigCustom {
                    meet,
                    met: cv.get_as_str_forced("met?"),
                    unmeet: cv.get_as_str_forced("unmeet"),
                    name: cv.get_as_str_forced("name"),
                    dir: cv.get_as_str_forced("dir"),
                }
            },
            None => UpConfigCustom {
                meet: String::new(),
                met: None,
                unmeet: None,
                name: None,
                dir: None,
            },
        }
    }

    /// What the step is called when it runs: the configured name, else the
    /// first word of the meet command, else a fixed default.
    pub fn step_name(&self) -> (r: String)
        ensures
            match self.name {
                Some(n) => r@ == n@,
                None => r@ == (if spec_first_word(self.meet@).len() == 0 {
                    "custom"@
                } else {
                    spec_first_word(self.meet@)
                }),
            },
    {
        if let Some(name) = &self.name {
            return name.clone();
        }
        let word = first_word(self.meet.as_str());
        if word.as_str().is_empty() {
            String::from_str("custom")
        } else {
            word
        }
    }

    /// The name used when reverting: the configured name, else the first
    /// word of the unmeet command, else the same fixed default.
    pub fn down_step_name(&self) -> (r: String)
        ensures
            match self.name {
                Some(n) => r@ == n@,
                None => {
                    let script = match self.unmeet {
                        Some(u) => u@,
                        None => "custom"@,
                    };
                    r@ == (if spec_first_word(script).len() == 0 {
                        "custom"@
                    } else {
                        spec_first_word(script)
                    })
                },
            },
    {
        if let Some(name) = &self.name {
            return name.clone();
        }
        proof {
            reveal_strlit("custom");
        }
        let word = match &self.unmeet {
            Some(u) => first_word(u.as_str()),
            None => first_word("custom"),
        };
        if word.as_str().is_empty() {
            String::from_str("custom")
        } else {
            word
        }
    }

    /// The up gate: run the meet command unless the check already reports
    /// the requirement met. `met` is the check's outcome, absent when no
    /// check command is configured.
    pub fn should_run_meet(&self, met: Option<bool>) -> (r: bool)
        ensures
            r == !met.unwrap_or(false),
    {
        match met {
            Some(b) => !b,
            None => true,
        }
    }

    /// The down gate: run the unmeet command only when one is configured
    /// and the check does not report the requirement already unmet.
    pub fn should_run_unmeet(&self, met: Option<bool>) -> (r: bool)
        ensures
            r == (self.unmeet is Some && met.unwrap_or(true)),
    {
        self.unmeet.is_some() && match met {
            Some(b) => b,
            None => true,
        }
    }

    /// The directory the step runs in, if one was configured.
    pub fn dir(&self) -> (r: Option<String>)
        ensures
            match r {
                Some(d) => self.dir matches Some(d2) && d2@ == d@,
                None => self.dir is None,
            },
    {
        match &self.dir {
            Some(d) => Some(d.clone()),
            None => None,
        }
    }
}

} // verus!
