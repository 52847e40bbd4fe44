use convbump::cmd::VersionCommand;
use convbump::conventional::CommitParser;
use convbump::version::{Label, Version, VersionAndTag};

fn ver(major: u64, minor: u64, patch: u64, pre: &str, build: &str) -> Version {
    Version {
        major,
        minor,
        patch,
        pre_release: pre.to_string(),
        build_metadata: build.to_string(),
    }
}

fn cmd() -> VersionCommand {
    VersionCommand {
        prefix: "v".to_string(),
        rev: "HEAD".to_string(),
        major: false,
        minor: false,
        patch: false,
        bump: false,
        label: false,
    }
}

fn parser() -> CommitParser {
    CommitParser::builder().build().expect("no scope pattern, must build")
}

fn msgs(texts: &[&str]) -> Vec<String> {
    texts.iter().map(|t| t.to_string()).collect()
}

fn assert_ver(v: &Version, major: u64, minor: u64, patch: u64, pre: &str, build: &str) {
    assert_eq!(v.major, major);
    assert_eq!(v.minor, minor);
    assert_eq!(v.patch, patch);
    assert_eq!(v.pre_release, pre);
    assert_eq!(v.build_metadata, build);
}

#[test]
fn fix_and_feat_give_minor() {
    let commits = msgs(&["fix: something", "feat: shiny thing"]);
    let (v, label) = cmd().find_bump_version(ver(1, 2, 3, "", ""), &parser(), &commits);
    assert_eq!(label, Label::Minor);
    assert_ver(&v, 1, 3, 0, "", "");
}

#[test]
fn scan_direction_does_not_change_the_outcome() {
    let newest_first = msgs(&["feat: shiny thing", "fix: something", "docs: words"]);
    let oldest_first = msgs(&["docs: words", "fix: something", "feat: shiny thing"]);
    let (v1, l1) = cmd().find_bump_version(ver(1, 2, 3, "", ""), &parser(), &newest_first);
    let (v2, l2) = cmd().find_bump_version(ver(1, 2, 3, "", ""), &parser(), &oldest_first);
    assert_eq!(l1, l2);
    assert_eq!(l1, Label::Minor);
    assert_ver(&v1, 1, 3, 0, "", "");
    assert_ver(&v2, 1, 3, 0, "", "");
}

#[test]
fn major_zero_feat_gives_patch() {
    let commits = msgs(&["feat: one", "feat: two"]);
    let (v, label) = cmd().find_bump_version(ver(0, 3, 1, "", ""), &parser(), &commits);
    assert_eq!(label, Label::Patch);
    assert_ver(&v, 0, 3, 2, "", "");
}

#[test]
fn major_zero_breaking_footer_gives_minor() {
    let commits = msgs(&["fix: rework\n\nBREAKING CHANGE: config keys renamed"]);
    let (v, label) = cmd().find_bump_version(ver(0, 3, 1, "", ""), &parser(), &commits);
    assert_eq!(label, Label::Minor);
    assert_ver(&v, 0, 4, 0, "", "");
}

#[test]
fn breaking_bang_gives_major() {
    let commits = msgs(&["feat!: drop legacy API"]);
    let (v, label) = cmd().find_bump_version(ver(2, 0, 0, "", ""), &parser(), &commits);
    assert_eq!(label, Label::Major);
    assert_ver(&v, 3, 0, 0, "", "");
}

#[test]
fn only_fix_gives_patch() {
    let commits = msgs(&["fix: a", "chore: b"]);
    let (v, label) = cmd().find_bump_version(ver(1, 2, 3, "", ""), &parser(), &commits);
    assert_eq!(label, Label::Patch);
    assert_ver(&v, 1, 2, 4, "", "");
}

#[test]
fn breaking_outweighs_later_signals() {
    let commits = msgs(&["feat!: new world", "feat: minor thing", "fix: tiny thing"]);
    let (v, label) = cmd().find_bump_version(ver(1, 2, 3, "", ""), &parser(), &commits);
    assert_eq!(label, Label::Major);
    assert_ver(&v, 2, 0, 0, "", "");
}

#[test]
fn non_conventional_messages_give_release_unchanged() {
    let commits = msgs(&["Merge branch 'main' into dev", "updated stuff", "WIP things"]);
    let (v, label) = cmd().find_bump_version(ver(1, 2, 3, "", ""), &parser(), &commits);
    assert_eq!(label, Label::Release);
    assert_ver(&v, 1, 2, 3, "", "");
}

#[test]
fn empty_range_gives_release_unchanged() {
    let commits: Vec<String> = Vec::new();
    let (v, label) = cmd().find_bump_version(ver(1, 2, 3, "", ""), &parser(), &commits);
    assert_eq!(label, Label::Release);
    assert_ver(&v, 1, 2, 3, "", "");
}

#[test]
fn no_prior_tag_resolves_to_initial_version() {
    let mut c = cmd();
    c.bump = true;
    let commits = msgs(&["feat!: would be major if a tag existed"]);
    let (v, label) = c.resolve(None, &parser(), &commits);
    assert_eq!(label, Label::Release);
    assert_ver(&v, 0, 1, 0, "", "");
}

#[test]
fn manual_major_flag_ignores_commits() {
    let mut c = cmd();
    c.major = true;
    let last = VersionAndTag { tag: "v1.2.3".to_string(), version: ver(1, 2, 3, "alpha", "b1") };
    let commits = msgs(&["fix: small"]);
    let (v, label) = c.resolve(Some(last), &parser(), &commits);
    assert_eq!(label, Label::Major);
    assert_ver(&v, 2, 0, 0, "", "");
}

#[test]
fn manual_minor_flag_ignores_commits() {
    let mut c = cmd();
    c.minor = true;
    let last = VersionAndTag { tag: "v1.2.3".to_string(), version: ver(1, 2, 3, "", "") };
    let commits = msgs(&["feat!: huge"]);
    let (v, label) = c.resolve(Some(last), &parser(), &commits);
    assert_eq!(label, Label::Minor);
    assert_ver(&v, 1, 3, 0, "", "");
}

#[test]
fn manual_patch_flag_ignores_commits() {
    let mut c = cmd();
    c.patch = true;
    let last = VersionAndTag { tag: "v1.2.3".to_string(), version: ver(1, 2, 3, "", "") };
    let commits = msgs(&["feat!: huge"]);
    let (v, label) = c.resolve(Some(last), &parser(), &commits);
    assert_eq!(label, Label::Patch);
    assert_ver(&v, 1, 2, 4, "", "");
}

#[test]
fn bump_with_pending_pre_release_strips_it() {
    let mut c = cmd();
    c.bump = true;
    let last = VersionAndTag {
        tag: "v1.2.3-rc.1".to_string(),
        version: ver(1, 2, 3, "rc.1", "b9"),
    };
    let commits = msgs(&["feat!: would otherwise be major"]);
    let (v, label) = c.resolve(Some(last), &parser(), &commits);
    assert_eq!(label, Label::Release);
    assert_ver(&v, 1, 2, 3, "", "");
}

#[test]
fn bump_without_pre_release_scans_commits() {
    let mut c = cmd();
    c.bump = true;
    let last = VersionAndTag { tag: "v1.2.3".to_string(), version: ver(1, 2, 3, "", "") };
    let commits = msgs(&["feat: shiny"]);
    let (v, label) = c.resolve(Some(last), &parser(), &commits);
    assert_eq!(label, Label::Minor);
    assert_ver(&v, 1, 3, 0, "", "");
}

#[test]
fn no_flags_returns_version_unchanged() {
    let c = cmd();
    let last = VersionAndTag { tag: "v1.2.3".to_string(), version: ver(1, 2, 3, "dev.2", "") };
    let commits = msgs(&["feat!: huge"]);
    let (v, label) = c.resolve(Some(last), &parser(), &commits);
    assert_eq!(label, Label::Release);
    assert_ver(&v, 1, 2, 3, "dev.2", "");
}

#[test]
fn find_last_version_picks_first_parsing_tag() {
    let c = cmd();
    let tags: Vec<String> =
        vec!["nightly".to_string(), "v1.2.3".to_string(), "v1.0.0".to_string()];
    let vt = c.find_last_version(&tags).expect("a version tag exists");
    assert_eq!(vt.tag, "v1.2.3");
    assert_ver(&vt.version, 1, 2, 3, "", "");
}

#[test]
fn find_last_version_requires_the_prefix() {
    let c = cmd();
    let tags: Vec<String> = vec!["1.2.3".to_string()];
    assert!(c.find_last_version(&tags).is_none());
}

#[test]
fn find_last_version_reads_pre_release_and_build() {
    let c = cmd();
    let tags: Vec<String> = vec!["v1.2.3-rc.1+exp.5".to_string()];
    let vt = c.find_last_version(&tags).expect("parses");
    assert_ver(&vt.version, 1, 2, 3, "rc.1", "exp.5");
}

#[test]
fn find_last_version_skips_malformed_versions() {
    let c = cmd();
    let tags: Vec<String> = vec!["v1.2".to_string(), "vabc".to_string(), "v0.9.0".to_string()];
    let vt = c.find_last_version(&tags).expect("one tag parses");
    assert_eq!(vt.tag, "v0.9.0");
    assert_ver(&vt.version, 0, 9, 0, "", "");
}

#[test]
fn find_last_version_empty_list_is_none() {
    let c = cmd();
    let tags: Vec<String> = Vec::new();
    assert!(c.find_last_version(&tags).is_none());
}

#[test]
fn scope_restriction_filters_bump_signals() {
    let mut c = cmd();
    c.bump = true;
    let p = CommitParser::builder()
        .scope_regex("^core$".to_string())
        .build()
        .expect("valid pattern");
    let last = VersionAndTag { tag: "v1.2.3".to_string(), version: ver(1, 2, 3, "", "") };
    // the feat's scope is refused, so only the scopeless fix counts
    let commits = msgs(&["feat(ui): pretty button", "fix: crash on empty input"]);
    let (v, label) = c.resolve(Some(last), &p, &commits);
    assert_eq!(label, Label::Patch);
    assert_ver(&v, 1, 2, 4, "", "");
}
