use vstd::prelude::*;

verus! {

/// A semantic version: `MAJOR.MINOR.PATCH`, with optional pre-release and
/// build-metadata identifiers. The empty string stands for "absent", as it
/// does in the underlying semver representation.
///
/// Invariant kept by every increment: `pre_release` and `build_metadata` are
/// cleared together whenever any numeric field changes.
#[derive(Debug)]
pub struct Version {
    pub major: u64,
    pub minor: u64,
    pub patch: u64,
    pub pre_release: String,
    pub build_metadata: String,
}

/// The mathematical model of a `Version`.
#[verifier::ext_equal]
pub struct VersionView {
    pub major: u64,
    pub minor: u64,
    pub patch: u64,
    pub pre_release: Seq<char>,
    pub build_metadata: Seq<char>,
}

impl View for Version {
    type V = VersionView;

    open spec fn view(&self) -> VersionView {
        VersionView {
            major: self.major,
            minor: self.minor,
            patch: self.patch,
            pre_release: self.pre_release@,
            build_metadata: self.build_metadata@,
        }
    }
}

/// A resolved version together with the git tag it was read from.
#[derive(Debug)]
pub struct VersionAndTag {
    pub tag: String,
    pub version: Version,
}

/// The coarse classification of a version change.
#[derive(Clone, Copy, Debug, PartialEq, Eq, Structural)]
pub enum Label {
    /// Bump the major field (1.1.0 -> 2.0.0)
    Major,
    /// Bump the minor field (0.1.0 -> 0.2.0)
    Minor,
    /// Bump the patch field (0.1.0 -> 0.1.1)
    Patch,
    /// No numeric change; at most the pre-release extension is removed
    /// (0.1.0-dev.1 -> 0.1.0, 0.1.0 -> 0.1.0)
    Release,
}

/// The lowercase name under which each label is printed.
pub open spec fn label_name(l: Label) -> Seq<char> {
    match l {
        Label::Major => "major"@,
        Label::Minor => "minor"@,
        Label::Patch => "patch"@,
        Label::Release => "release"@,
    }
}

impl Label {
    /// The lowercase name of the label, as the command layer prints it.
    pub fn name(&self) -> (r: &'static str)
        ensures
            r@ == label_name(*self),
    {
        match *self {
            Label::Major => "major",
            Label::Minor => "minor",
            Label::Patch => "patch",
            Label::Release => "release",
        }
    }
}

/// What `increment_patch` does to a version.
pub open spec fn spec_increment_patch(v: VersionView) -> VersionView {
    VersionView {
        patch: (v.patch + 1) as u64,
        pre_release: Seq::<char>::empty(),
        build_metadata: Seq::<char>::empty(),
        ..v
    }
}

/// What `increment_minor` does to a version.
pub open spec fn spec_increment_minor(v: VersionView) -> VersionView {
    VersionView {
        minor: (v.minor + 1) as u64,
        patch: 0,
        pre_release: Seq::<char>::empty(),
        build_metadata: Seq::<char>::empty(),
        ..v
    }
}

/// What `increment_major` does to a version.
pub open spec fn spec_increment_major(v: VersionView) -> VersionView {
    VersionView {
        major: (v.major + 1) as u64,
        minor: 0,
        patch: 0,
        pre_release: Seq::<char>::empty(),
        build_metadata: Seq::<char>::empty(),
        ..v
    }
}

/// What `release` does to a version: strip pre-release and build metadata,
/// leave the numeric fields alone.
pub open spec fn spec_release(v: VersionView) -> VersionView {
    VersionView {
        pre_release: Seq::<char>::empty(),
        build_metadata: Seq::<char>::empty(),
        ..v
    }
}

/// Law: every increment, and the plain release, clears the pre-release and
/// build-metadata identifiers, whatever the starting version held.
pub proof fn lemma_increment_clears_extensions(v: VersionView)
    ensures
        spec_increment_patch(v).pre_release.len() == 0,
        spec_increment_patch(v).build_metadata.len() == 0,
        spec_increment_minor(v).pre_release.len() == 0,
        spec_increment_minor(v).build_metadata.len() == 0,
        spec_increment_major(v).pre_release.len() == 0,
        spec_increment_major(v).build_metadata.len() == 0,
        spec_release(v).pre_release.len() == 0,
        spec_release(v).build_metadata.len() == 0,
{
}

/// Law: `increment_major` zeroes minor and patch; `increment_minor` keeps
/// major and zeroes patch; `increment_patch` keeps major and minor; and each
/// adds exactly one to its own field.
pub proof fn lemma_increment_numeric_fields(v: VersionView)
    ensures
        spec_increment_major(v).minor == 0,
        spec_increment_major(v).patch == 0,
        spec_increment_minor(v).major == v.major,
        spec_increment_minor(v).patch == 0,
        spec_increment_patch(v).major == v.major,
        spec_increment_patch(v).minor == v.minor,
        v.major < u64::MAX ==> spec_increment_major(v).major == v.major + 1,
        v.minor < u64::MAX ==> spec_increment_minor(v).minor == v.minor + 1,
        v.patch < u64::MAX ==> spec_increment_patch(v).patch == v.patch + 1,
        spec_release(v).major == v.major,
        spec_release(v).minor == v.minor,
        spec_release(v).patch == v.patch,
{
}

/// Bump the patch field by exactly one; major and minor are untouched and the
/// pre-release and build-metadata identifiers are cleared.
pub fn increment_patch(v: &mut Version)
    requires
        old(v).patch < u64::MAX,
    ensures
        final(v)@ == spec_increment_patch(old(v)@),
{
    v.patch = v.patch + 1;
    v.pre_release = String::new();
    v.build_metadata = String::new();
    proof {
        assert(v@ =~= spec_increment_patch(old(v)@));
    }
}

/// Bump the minor field by exactly one; patch is reset to zero, major is
/// untouched, and the pre-release and build-metadata identifiers are cleared.
pub fn increment_minor(v: &mut Version)
    requires
        old(v).minor < u64::MAX,
    ensures
        final(v)@ == spec_increment_minor(old(v)@),
{
    v.minor = v.minor + 1;
    v.patch = 0;
    v.pre_release = String::new();
    v.build_metadata = String::new();
    proof {
        assert(v@ =~= spec_increment_minor(old(v)@));
    }
}

/// Bump the major field by exactly one; minor and patch are reset to zero and
/// the pre-release and build-metadata identifiers are cleared.
pub fn increment_major(v: &mut Version)
    requires
        old(v).major < u64::MAX,
    ensures
        final(v)@ == spec_increment_major(old(v)@),
{
    v.major = v.major + 1;
    v.minor = 0;
    v.patch = 0;
    v.pre_release = String::new();
    v.build_metadata = String::new();
    proof {
        assert(v@ =~= spec_increment_major(old(v)@));
    }
}

/// Strip the pre-release and build-metadata identifiers without touching the
/// numeric fields.
pub fn release(v: &mut Version)
    ensures
        final(v)@ == spec_release(old(v)@),
{
    v.pre_release = String::new();
    v.build_metadata = String::new();
    proof {
        assert(v@ =~= spec_release(old(v)@));
    }
}

} // verus!

