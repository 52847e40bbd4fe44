use convbump::version::{increment_major, increment_minor, increment_patch, release, Label, Version};

fn ver(major: u64, minor: u64, patch: u64, pre: &str, build: &str) -> Version {
    Version {
        major,
        minor,
        patch,
        pre_release: pre.to_string(),
        build_metadata: build.to_string(),
    }
}

fn assert_ver(v: &Version, major: u64, minor: u64, patch: u64, pre: &str, build: &str) {
    assert_eq!(v.major, major);
    assert_eq!(v.minor, minor);
    assert_eq!(v.patch, patch);
    assert_eq!(v.pre_release, pre);
    assert_eq!(v.build_metadata, build);
}

#[test]
fn increment_patch_bumps_only_patch() {
    let mut v = ver(1, 2, 3, "", "");
    increment_patch(&mut v);
    assert_ver(&v, 1, 2, 4, "", "");
}

#[test]
fn increment_minor_resets_patch() {
    let mut v = ver(1, 2, 3, "", "");
    increment_minor(&mut v);
    assert_ver(&v, 1, 3, 0, "", "");
}

#[test]
fn increment_major_resets_minor_and_patch() {
    let mut v = ver(1, 2, 3, "", "");
    increment_major(&mut v);
    assert_ver(&v, 2, 0, 0, "", "");
}

#[test]
fn increments_clear_pre_release_and_build_metadata() {
    let mut a = ver(0, 1, 0, "dev.1", "build.5");
    increment_patch(&mut a);
    assert_ver(&a, 0, 1, 1, "", "");

    let mut b = ver(0, 1, 0, "alpha", "b7");
    increment_minor(&mut b);
    assert_ver(&b, 0, 2, 0, "", "");

    let mut c = ver(0, 1, 0, "rc.2", "exp.sha.5114f85");
    increment_major(&mut c);
    assert_ver(&c, 1, 0, 0, "", "");
}

#[test]
fn release_strips_extensions_and_keeps_numbers() {
    let mut v = ver(0, 1, 0, "dev.1", "b3");
    release(&mut v);
    assert_ver(&v, 0, 1, 0, "", "");

    let mut w = ver(0, 1, 0, "", "");
    release(&mut w);
    assert_ver(&w, 0, 1, 0, "", "");
}

#[test]
fn label_names_are_lowercase() {
    assert_eq!(Label::Major.name(), "major");
    assert_eq!(Label::Minor.name(), "minor");
    assert_eq!(Label::Patch.name(), "patch");
    assert_eq!(Label::Release.name(), "release");
}
