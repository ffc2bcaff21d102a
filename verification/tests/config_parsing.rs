use omni::config_value::ConfigData;
use omni::config_value::ConfigSource;
use omni::config_value::ConfigValue;
use omni::parser::CacheConfig;
use omni::parser::CloneConfig;
use omni::parser::CommandDefinition;
use omni::parser::CommandSyntax;
use omni::parser::ConfigCommandsConfig;
use omni::parser::MakefileCommandsConfig;
use omni::parser::OrgConfig;
use omni::parser::PackageLookup;
use omni::parser::PathConfig;
use omni::parser::PathEntryConfig;
use omni::parser::PathRepoUpdatesConfig;
use omni::parser::PathRepoUpdatesPerRepoConfig;
use omni::parser::ShellAliasConfig;
use omni::parser::ShellAliasesConfig;
use omni::parser::SuggestCloneConfig;
use omni::parser::SuggestCloneRepositoryConfig;
use omni::parser::SuggestCloneTypeEnum;
use omni::parser::SyntaxOptArg;
use omni::parser::UpCommandConfig;
use omni::up_bundler::UpConfigBundler;
use omni::up_custom::UpConfigCustom;

fn table(entries: Vec<(&str, ConfigValue)>) -> ConfigValue {
    let mapped: Vec<(String, ConfigValue)> =
        entries.into_iter().map(|(k, v)| (k.to_string(), v)).collect();
    ConfigValue::new(
        ConfigSource::Null,
        Vec::new(),
        Some(Box::new(ConfigData::Mapping(mapped))),
    )
}

fn labeled_table(label: &str, entries: Vec<(&str, ConfigValue)>) -> ConfigValue {
    let mapped: Vec<(String, ConfigValue)> =
        entries.into_iter().map(|(k, v)| (k.to_string(), v)).collect();
    ConfigValue::new(
        ConfigSource::Null,
        vec![label.to_string()],
        Some(Box::new(ConfigData::Mapping(mapped))),
    )
}

fn array(items: Vec<ConfigValue>) -> ConfigValue {
    ConfigValue::new(ConfigSource::Null, Vec::new(), Some(Box::new(ConfigData::Array(items))))
}

fn boolean(b: bool) -> ConfigValue {
    ConfigValue::new(ConfigSource::Null, Vec::new(), Some(Box::new(ConfigData::Bool(b))))
}

fn integer(n: i64) -> ConfigValue {
    ConfigValue::new(ConfigSource::Null, Vec::new(), Some(Box::new(ConfigData::Integer(n))))
}

#[test]
fn cache_config_prefers_the_configured_path() {
    let cv = table(vec![("path", ConfigValue::from_str("/tmp/cache"))]);
    assert_eq!(CacheConfig::from_config_value(&cv, "/home/u/.cache").path, "/tmp/cache");
    let empty = table(vec![]);
    assert_eq!(CacheConfig::from_config_value(&empty, "/home/u/.cache").path, "/home/u/.cache");
}

#[test]
fn config_commands_split_flags_default_to_true() {
    let cv = table(vec![("split_on_dash", boolean(false))]);
    let c = ConfigCommandsConfig::from_config_value(&cv);
    assert!(!c.split_on_dash);
    assert!(c.split_on_slash);
    let m = MakefileCommandsConfig::from_config_value(&table(vec![("enabled", boolean(false))]));
    assert!(!m.enabled && m.split_on_dash && m.split_on_slash);
}

#[test]
fn org_from_str_splits_on_the_first_equals() {
    let org = OrgConfig::from_str("github.com/acme=~/work");
    assert_eq!(org.handle, "github.com/acme");
    assert!(org.trusted);
    assert_eq!(org.worktree, Some("~/work".to_string()));
    let plain = OrgConfig::from_str("github.com/acme");
    assert_eq!(plain.handle, "github.com/acme");
    assert_eq!(plain.worktree, None);
    let doubled = OrgConfig::from_str("a=b=c");
    assert_eq!(doubled.handle, "a");
    assert_eq!(doubled.worktree, Some("b".to_string()));
}

#[test]
fn org_from_config_value_reads_both_shapes() {
    let s = ConfigValue::from_str("github.com/acme=~/work");
    let org = OrgConfig::from_config_value(&s);
    assert_eq!(org.handle, "github.com/acme");
    let t = table(vec![
        ("handle", ConfigValue::from_str("github.com/acme")),
        ("trusted", boolean(true)),
    ]);
    let org2 = OrgConfig::from_config_value(&t);
    assert_eq!(org2.handle, "github.com/acme");
    assert!(org2.trusted);
    assert_eq!(org2.worktree, None);
    let untrusted = table(vec![("handle", ConfigValue::from_str("h"))]);
    assert!(!OrgConfig::from_config_value(&untrusted).trusted);
}

#[test]
fn clone_config_timeout_defaults_to_five() {
    assert_eq!(CloneConfig::from_config_value(None).ls_remote_timeout_seconds, 5);
    let cv = table(vec![("ls_remote_timeout_seconds", integer(30))]);
    assert_eq!(CloneConfig::from_config_value(Some(&cv)).ls_remote_timeout_seconds, 30);
    let negative = table(vec![("ls_remote_timeout_seconds", integer(-1))]);
    assert_eq!(CloneConfig::from_config_value(Some(&negative)).ls_remote_timeout_seconds, 5);
}

#[test]
fn path_entries_resolve_packages_and_prefixes() {
    let mut packages = PackageLookup::new();
    packages.entries.push((
        "github.com/acme/tools".to_string(),
        "/home/u/packages/github.com/acme/tools".to_string(),
    ));

    let abs = PathEntryConfig::from_path("/usr/local/bin");
    assert!(abs.is_valid());
    assert_eq!(abs.full_path, "/usr/local/bin");
    let rel = PathEntryConfig::from_path("bin");
    assert!(!rel.is_valid());
    assert_eq!(rel.full_path, "");

    let cv = table(vec![
        ("path", ConfigValue::from_str("bin")),
        ("package", ConfigValue::from_str("github.com/acme/tools")),
    ]);
    let entry = PathEntryConfig::from_config_value(&cv, &packages);
    assert_eq!(entry.package, Some("github.com/acme/tools".to_string()));
    assert_eq!(entry.full_path, "/home/u/packages/github.com/acme/tools/bin");
    assert_eq!(
        entry.package_path(&packages),
        Some("/home/u/packages/github.com/acme/tools".to_string())
    );
    assert!(entry.is_package("/home/u/packages"));

    let plain = PathEntryConfig::from_path("/home/u/packages/github.com/acme/tools/bin");
    assert!(plain.is_package("/home/u/packages"));
    let outside = PathEntryConfig::from_path("/home/u/packagesx/bin");
    assert!(!outside.is_package("/home/u/packages"));

    let base = PathEntryConfig::from_path("/a/b");
    let under = PathEntryConfig::from_path("/a/b/c");
    let sibling = PathEntryConfig::from_path("/a/bc");
    assert!(under.starts_with(&base));
    assert!(!sibling.starts_with(&base));
    assert!(base.includes_path("/a/b/c/d"));
    assert!(!base.includes_path("/a/bcd"));
}

#[test]
fn path_entry_replace_rebases_under_the_target() {
    let packages = PackageLookup::new();
    let mut entry = PathEntryConfig::from_path("/old/tree/proj/bin");
    let from = PathEntryConfig::from_path("/old/tree");
    let to = PathEntryConfig::from_path("/new/tree");
    assert!(entry.replace(&from, &to, &packages));
    assert_eq!(entry.full_path, "/new/tree/proj/bin");
    assert_eq!(entry.path, "/new/tree/proj/bin");
    assert_eq!(entry.package, None);

    let mut other = PathEntryConfig::from_path("/elsewhere/bin");
    assert!(!other.replace(&from, &to, &packages));
    assert_eq!(other.full_path, "/elsewhere/bin");
}

#[test]
fn path_config_maps_both_directions() {
    let packages = PackageLookup::new();
    let cv = table(vec![
        ("append", array(vec![ConfigValue::from_str("/a")])),
        ("prepend", array(vec![ConfigValue::from_str("/b"), ConfigValue::from_str("/c")])),
    ]);
    let pc = PathConfig::from_config_value(&cv, &packages);
    assert_eq!(pc.append.len(), 1);
    assert_eq!(pc.prepend.len(), 2);
    assert_eq!(pc.append[0].full_path, "/a");
    assert_eq!(pc.prepend[1].full_path, "/c");
}

#[test]
fn repo_updates_defaults_and_overrides() {
    let cv = table(vec![]);
    let c = PathRepoUpdatesConfig::from_config_value(&cv);
    assert!(c.enabled);
    assert!(c.self_update.is_ask(true));
    assert!(c.self_update.is_false(false));
    assert!(!c.self_update.do_not_check());
    assert_eq!(c.pre_auth_timeout, 120);
    assert_eq!(c.background_updates_timeout, 3600);
    assert_eq!(c.interval, 43200);
    assert_eq!(c.ref_type, "branch");
    assert_eq!(c.ref_match, None);

    let cv2 = table(vec![
        ("enabled", boolean(false)),
        ("self_update", ConfigValue::from_str("NoCheck")),
        ("interval", integer(60)),
        ("ref_type", ConfigValue::from_str("tag")),
        (
            "per_repo_config",
            table(vec![(
                "github.com/acme/app",
                table(vec![("enabled", boolean(true)), ("ref_type", ConfigValue::from_str("branch"))]),
            )]),
        ),
    ]);
    let c2 = PathRepoUpdatesConfig::from_config_value(&cv2);
    assert!(!c2.enabled);
    assert!(c2.self_update.do_not_check());
    assert_eq!(c2.interval, 60);
    let (enabled, ref_type, ref_match) = c2.update_config("github.com/acme/app");
    assert!(enabled);
    assert_eq!(ref_type, "branch");
    assert_eq!(ref_match, None);
    let (enabled2, ref_type2, _) = c2.update_config("github.com/acme/other");
    assert!(!enabled2);
    assert_eq!(ref_type2, "tag");

    let bool_wins = table(vec![("self_update", boolean(true))]);
    assert!(!PathRepoUpdatesConfig::from_config_value(&bool_wins).self_update.is_ask(true));

    let per = PathRepoUpdatesPerRepoConfig::from_config_value(&table(vec![]));
    assert!(per.enabled);
    assert_eq!(per.ref_type, "branch");
}

#[test]
fn suggest_clone_reads_strings_and_tables() {
    let s = ConfigValue::from_str("github.com/acme/app");
    let r = SuggestCloneRepositoryConfig::from_config_value(&s).expect("parses");
    assert_eq!(r.handle, "github.com/acme/app");
    assert!(r.args.is_empty());
    assert!(r.clone_as_package());

    let t = table(vec![
        ("handle", ConfigValue::from_str("github.com/acme/app")),
        ("args", ConfigValue::from_str("--depth 1 'my arg'")),
        ("clone_type", ConfigValue::from_str("Worktree")),
    ]);
    let r2 = SuggestCloneRepositoryConfig::from_config_value(&t).expect("parses");
    assert_eq!(
        r2.args,
        vec!["--depth".to_string(), "1".to_string(), "my arg".to_string()]
    );
    assert_eq!(r2.clone_type, SuggestCloneTypeEnum::Worktree);
    assert!(!r2.clone_as_package());

    let unbalanced = table(vec![
        ("handle", ConfigValue::from_str("h")),
        ("args", ConfigValue::from_str("'unclosed")),
    ]);
    let r3 = SuggestCloneRepositoryConfig::from_config_value(&unbalanced).expect("parses");
    assert!(r3.args.is_empty());

    let no_handle = table(vec![("args", ConfigValue::from_str("x"))]);
    assert!(SuggestCloneRepositoryConfig::from_config_value(&no_handle).is_none());

    let labeled = ConfigValue::new(
        ConfigSource::Null,
        vec!["git_repo".to_string()],
        Some(Box::new(ConfigData::Array(vec![ConfigValue::from_str("github.com/a/b")]))),
    );
    let sc = SuggestCloneConfig::from_config_value(Some(&labeled));
    assert_eq!(sc.repositories.len(), 1);
    let unlabeled = array(vec![ConfigValue::from_str("github.com/a/b")]);
    assert!(SuggestCloneConfig::from_config_value(Some(&unlabeled)).repositories.is_empty());
}

#[test]
fn up_command_config_ignores_repo_scoped_nodes() {
    let global = table(vec![("auto_bootstrap", boolean(false))]);
    assert!(!UpCommandConfig::from_config_value(Some(&global)).auto_bootstrap);
    let repo_scoped = labeled_table("git_repo", vec![("auto_bootstrap", boolean(false))]);
    assert!(UpCommandConfig::from_config_value(Some(&repo_scoped)).auto_bootstrap);
    assert!(UpCommandConfig::from_config_value(None).auto_bootstrap);
}

#[test]
fn shell_aliases_read_both_shapes() {
    let cv = array(vec![
        ConfigValue::from_str("gs"),
        table(vec![
            ("alias", ConfigValue::from_str("gco")),
            ("target", ConfigValue::from_str("git checkout")),
        ]),
        boolean(true),
    ]);
    let aliases = ShellAliasesConfig::from_config_value(Some(&cv)).aliases;
    assert_eq!(aliases.len(), 2);
    assert_eq!(aliases[0].alias, "gs");
    assert_eq!(aliases[0].target, None);
    assert_eq!(aliases[1].alias, "gco");
    assert_eq!(aliases[1].target, Some("git checkout".to_string()));
    assert!(ShellAliasConfig::from_config_value(&boolean(true)).is_none());
}

#[test]
fn command_syntax_collects_parameters() {
    assert!(CommandSyntax::new().usage.is_none());
    let arg = SyntaxOptArg::new("file".to_string(), None, true);
    assert_eq!(arg.name, "file");
    assert!(arg.required);

    let usage_only = ConfigValue::from_str("omni run <file>");
    let cs = CommandSyntax::from_config_value(&usage_only).expect("parses");
    assert_eq!(cs.usage, Some("omni run <file>".to_string()));
    assert!(cs.parameters.is_empty());

    let listed = array(vec![
        ConfigValue::from_str("file"),
        table(vec![("verbose", ConfigValue::from_str("print more"))]),
    ]);
    let cs2 = CommandSyntax::from_config_value(&listed).expect("parses");
    assert!(cs2.usage.is_none());
    assert_eq!(cs2.parameters.len(), 2);
    assert_eq!(cs2.parameters[0].name, "file");
    assert!(!cs2.parameters[0].required);
    assert_eq!(cs2.parameters[1].name, "verbose");
    assert_eq!(cs2.parameters[1].desc, Some("print more".to_string()));

    let keyed = table(vec![
        ("arguments", array(vec![ConfigValue::from_str("input")])),
        ("options", array(vec![ConfigValue::from_str("color")])),
        ("usage", ConfigValue::from_str("demo")),
    ]);
    let cs3 = CommandSyntax::from_config_value(&keyed).expect("parses");
    assert_eq!(cs3.usage, Some("demo".to_string()));
    assert_eq!(cs3.parameters.len(), 2);
    assert!(cs3.parameters[0].required);
    assert_eq!(cs3.parameters[0].name, "input");
    assert!(!cs3.parameters[1].required);

    let empty = table(vec![]);
    assert!(CommandSyntax::from_config_value(&empty).is_none());

    let named = table(vec![
        ("name", ConfigValue::from_str("count")),
        ("desc", ConfigValue::from_str("how many")),
        ("required", boolean(true)),
    ]);
    let arg2 = SyntaxOptArg::from_config_value(&named, None).expect("parses");
    assert_eq!(arg2.name, "count");
    assert_eq!(arg2.desc, Some("how many".to_string()));
    assert!(arg2.required);
}

#[test]
fn command_definition_reads_nested_subcommands() {
    let grandchild = table(vec![("run", ConfigValue::from_str("echo deep"))]);
    let leaf = table(vec![
        ("run", ConfigValue::from_str("echo leaf")),
        ("desc", ConfigValue::from_str("a leaf")),
        ("subcommands", table(vec![("deep", grandchild)])),
    ]);
    let cv = table(vec![
        ("run", ConfigValue::from_str("echo root")),
        ("aliases", array(vec![ConfigValue::from_str("r"), ConfigValue::from_str("root")])),
        ("category", ConfigValue::from_str("General")),
        ("syntax", ConfigValue::from_str("omni root")),
        ("subcommands", table(vec![("leaf", leaf)])),
    ]);
    let cmd = CommandDefinition::from_config_value(&cv);
    assert_eq!(cmd.run, "echo root");
    assert_eq!(cmd.desc, None);
    assert_eq!(cmd.aliases, vec!["r".to_string(), "root".to_string()]);
    assert_eq!(cmd.category, Some(vec!["General".to_string()]));
    let syntax = cmd.syntax.expect("has syntax");
    assert_eq!(syntax.usage, Some("omni root".to_string()));
    let subs = cmd.subcommands.expect("has subcommands");
    assert_eq!(subs.len(), 1);
    assert_eq!(subs[0].0, "leaf");
    assert_eq!(subs[0].1.run, "echo leaf");
    assert_eq!(subs[0].1.desc, Some("a leaf".to_string()));
    let deep = subs[0].1.subcommands.as_ref().expect("two levels down");
    assert_eq!(deep.len(), 1);
    assert_eq!(deep[0].0, "deep");
    assert_eq!(deep[0].1.run, "echo deep");
    assert!(deep[0].1.subcommands.is_none());

    let bare = table(vec![]);
    let defaulted = CommandDefinition::from_config_value(&bare);
    // a command without a run script runs the shell no-op
    assert_eq!(defaulted.run, "true");
    assert!(defaulted.aliases.is_empty());
    assert!(defaulted.syntax.is_none());
}

#[test]
fn up_custom_reads_scalars_as_text() {
    let cv = table(vec![
        ("meet", ConfigValue::from_str("make install")),
        ("met?", ConfigValue::from_str("which tool")),
        ("name", boolean(true)),
        ("dir", integer(-42)),
    ]);
    let c = UpConfigCustom::from_config_value(Some(&cv));
    assert_eq!(c.meet, "make install");
    assert_eq!(c.met, Some("which tool".to_string()));
    assert_eq!(c.unmeet, None);
    assert_eq!(c.name, Some("true".to_string()));
    assert_eq!(c.dir, Some("-42".to_string()));
    assert_eq!(c.dir(), Some("-42".to_string()));
    let none = UpConfigCustom::from_config_value(None);
    assert_eq!(none.meet, "");
}

#[test]
fn up_custom_step_decisions() {
    let cv = table(vec![
        ("meet", ConfigValue::from_str("  make   install")),
        ("unmeet", ConfigValue::from_str("make uninstall")),
    ]);
    let step = UpConfigCustom::from_config_value(Some(&cv));
    assert_eq!(step.step_name(), "make");
    assert_eq!(step.down_step_name(), "make");
    // the up gate runs unless the check already reports the step met
    assert!(step.should_run_meet(None));
    assert!(step.should_run_meet(Some(false)));
    assert!(!step.should_run_meet(Some(true)));
    // the down gate runs only while the step is still met
    assert!(step.should_run_unmeet(None));
    assert!(step.should_run_unmeet(Some(true)));
    assert!(!step.should_run_unmeet(Some(false)));

    let named = table(vec![
        ("name", ConfigValue::from_str("toolchain")),
        ("meet", ConfigValue::from_str("make install")),
    ]);
    let named_step = UpConfigCustom::from_config_value(Some(&named));
    assert_eq!(named_step.step_name(), "toolchain");
    // no unmeet command: the down gate never opens
    assert!(!named_step.should_run_unmeet(Some(true)));
    assert_eq!(named_step.down_step_name(), "toolchain");

    let bare = UpConfigCustom::from_config_value(None);
    assert_eq!(bare.step_name(), "custom");
    assert_eq!(bare.down_step_name(), "custom");
}

#[test]
fn up_bundler_defaults_the_bundle_path() {
    let none = UpConfigBundler::from_config_value(None);
    assert_eq!(none.gemfile, None);
    assert_eq!(none.path, Some("vendor/bundle".to_string()));
    let s = ConfigValue::from_str("tools/Gemfile");
    let from_str = UpConfigBundler::from_config_value(Some(&s));
    assert_eq!(from_str.gemfile, Some("tools/Gemfile".to_string()));
    assert_eq!(from_str.path, Some("vendor/bundle".to_string()));
    let t = table(vec![
        ("gemfile", ConfigValue::from_str("Gemfile")),
        ("path", ConfigValue::from_str(".bundle")),
    ]);
    let from_table = UpConfigBundler::from_config_value(Some(&t));
    assert_eq!(from_table.gemfile, Some("Gemfile".to_string()));
    assert_eq!(from_table.path, Some(".bundle".to_string()));
}
