//! The bundler up step: which gemfile to install and where the bundle
//! lives. Only the configuration reading lives here; running bundler and
//! recording the environment is the surrounding program's work.
use vstd::prelude::*;
use vstd::string::StringExecFns;

use crate::config_value::ConfigValue;

verus! {

/// A bundler step: the gemfile, and the bundle path within the workdir.
#[derive(Debug, Clone)]
pub struct UpConfigBundler {
    pub gemfile: Option<String>,
    pub path: Option<String>,
}

impl UpConfigBundler {
    /// Reads the step: a table gives `gemfile` and `path`, a bare string is
    /// the gemfile; the bundle path defaults to `vendor/bundle`.
    pub fn from_config_value(config_value: Option<&ConfigValue>) -> (r: Self)
        requires
            match config_value {
                Some(cv) => {
                    &&& (cv.spec_is_table() ==> (cv.spec_get("gemfile"@) matches Some(g)
                        ==> g.spec_as_str() is Some))
                    &&& (cv.spec_is_table() ==> (cv.spec_get("path"@) matches Some(p)
                        ==> p.spec_as_str() is Some))
                    &&& (!cv.spec_is_table() ==> cv.spec_is_str())
                },
                None => true,
            },
        ensures
            match config_value {
                Some(cv) => {
                    if cv.spec_is_table() {
                        &&& (match r.gemfile {
                            Some(g) => cv.spec_get_as_str("gemfile"@) == Some(g@),
                            None => cv.spec_get_as_str("gemfile"@) is None,
                        })
                        &&& (r.path matches Some(p) && p@ == cv.spec_get_as_str("path"@).unwrap_or(
                            "vendor/bundle"@,
                        ))
                    } else {
                        &&& (r.gemfile matches Some(g) && g@ == cv.spec_as_str()->Some_0)
                        &&& (r.path matches Some(p) && p@ == "vendor/bundle"@)
                    }
                },
                None => r.gemfile is None && (r.path matches Some(p) && p@ == "vendor/bundle"@),
            },
    {
        let mut gemfile: Option<String> = None;
        let mut path: Option<String> = Some(String::from_str("vendor/bundle"));
        if let Some(cv) = config_value {
            if cv.is_table() {
                if let Some(value) = cv.get("gemfile") {
                    gemfile = Some(value.as_str().unwrap());
                }
                if let Some(value) = cv.get("path") {
                    path = Some(value.as_str().unwrap());
                }
            } else {
                gemfile = Some(cv.as_str().unwrap());
            }
        }
        UpConfigBundler { gemfile, path }
    }
}

} // verus!
