use vstd::prelude::*;

use crate::conventional::CommitParser;
use crate::conventional::Type;
use crate::conventional::parse_result;
use crate::version::Label;
use crate::version::Version;
use crate::version::VersionAndTag;
use crate::version::VersionView;
use crate::version::increment_major;
use crate::version::increment_minor;
use crate::version::increment_patch;
use crate::version::release;
use crate::version::spec_increment_major;
use crate::version::spec_increment_minor;
use crate::version::spec_increment_patch;
use crate::version::spec_release;

verus! {

// ------------------------------------------------------------------
// Bump signals of a commit range
// ------------------------------------------------------------------

/// The message parses and marks a breaking change (header `!` or footer).
pub open spec fn is_breaking_commit(scope_regex: Option<Seq<char>>, msg: Seq<char>) -> bool {
    parse_result(scope_regex, msg) matches Some(pc) && pc.breaking
}

/// The message parses as a non-breaking `feat` commit.
pub open spec fn is_feat_commit(scope_regex: Option<Seq<char>>, msg: Seq<char>) -> bool {
    parse_result(scope_regex, msg) matches Some(pc) && !pc.breaking && pc.ty == Type::Feat
}

/// The message parses as a non-breaking `fix` commit.
pub open spec fn is_fix_commit(scope_regex: Option<Seq<char>>, msg: Seq<char>) -> bool {
    parse_result(scope_regex, msg) matches Some(pc) && !pc.breaking && pc.ty == Type::Fix
}

pub open spec fn any_breaking(scope_regex: Option<Seq<char>>, msgs: Seq<Seq<char>>) -> bool {
    exists|i: int| 0 <= i < msgs.len() && #[trigger] is_breaking_commit(scope_regex, msgs[i])
}

pub open spec fn any_feat(scope_regex: Option<Seq<char>>, msgs: Seq<Seq<char>>) -> bool {
    exists|i: int| 0 <= i < msgs.len() && #[trigger] is_feat_commit(scope_regex, msgs[i])
}

pub open spec fn any_fix(scope_regex: Option<Seq<char>>, msgs: Seq<Seq<char>>) -> bool {
    exists|i: int| 0 <= i < msgs.len() && #[trigger] is_fix_commit(scope_regex, msgs[i])
}

/// The message asks for a patch bump: a `fix`, or under major-version-zero
/// also a `feat`.
pub open spec fn is_patch_signal(
    scope_regex: Option<Seq<char>>,
    msg: Seq<char>,
    major_version_zero: bool,
) -> bool {
    is_fix_commit(scope_regex, msg) || (major_version_zero && is_feat_commit(scope_regex, msg))
}

/// The aggregate severity of a commit range. A breaking change outweighs
/// `feat`, which outweighs `fix`; in a major-version-zero project each
/// signal maps one severity level lower. A range with no recognized signal
/// is a `Release`: a deliberate no-op rather than an implicit patch bump.
pub open spec fn bump_label(
    scope_regex: Option<Seq<char>>,
    msgs: Seq<Seq<char>>,
    major_version_zero: bool,
) -> Label {
    if major_version_zero {
        if any_breaking(scope_regex, msgs) {
            Label::Minor
        } else if any_feat(scope_regex, msgs) || any_fix(scope_regex, msgs) {
            Label::Patch
        } else {
            Label::Release
        }
    } else {
        if any_breaking(scope_regex, msgs) {
            Label::Major
        } else if any_feat(scope_regex, msgs) {
            Label::Minor
        } else if any_fix(scope_regex, msgs) {
            Label::Patch
        } else {
            Label::Release
        }
    }
}

proof fn lemma_signals_from_multiset(
    scope_regex: Option<Seq<char>>,
    a: Seq<Seq<char>>,
    b: Seq<Seq<char>>,
)
    requires
        a.to_multiset() == b.to_multiset(),
    ensures
        any_breaking(scope_regex, a) ==> any_breaking(scope_regex, b),
        any_feat(scope_regex, a) ==> any_feat(scope_regex, b),
        any_fix(scope_regex, a) ==> any_fix(scope_regex, b),
{
    broadcast use vstd::seq_lib::group_to_multiset_ensures;

    if any_breaking(scope_regex, a) {
        let i = choose|i: int| 0 <= i < a.len() && #[trigger] is_breaking_commit(
            scope_regex,
            a[i],
        );
        let m = a[i];
        assert(a.contains(m));
        assert(a.to_multiset().count(m) > 0);
        assert(b.to_multiset().count(m) > 0);
        assert(b.contains(m));
        let j = choose|j: int| 0 <= j < b.len() && b[j] == m;
        assert(is_breaking_commit(scope_regex, b[j]));
    }
    if any_feat(scope_regex, a) {
        let i = choose|i: int| 0 <= i < a.len() && #[trigger] is_feat_commit(scope_regex, a[i]);
        let m = a[i];
        assert(a.contains(m));
        assert(a.to_multiset().count(m) > 0);
        assert(b.to_multiset().count(m) > 0);
        assert(b.contains(m));
        let j = choose|j: int| 0 <= j < b.len() && b[j] == m;
        assert(is_feat_commit(scope_regex, b[j]));
    }
    if any_fix(scope_regex, a) {
        let i = choose|i: int| 0 <= i < a.len() && #[trigger] is_fix_commit(scope_regex, a[i]);
        let m = a[i];
        assert(a.contains(m));
        assert(a.to_multiset().count(m) > 0);
        assert(b.to_multiset().count(m) > 0);
        assert(b.contains(m));
        let j = choose|j: int| 0 <= j < b.len() && b[j] == m;
        assert(is_fix_commit(scope_regex, b[j]));
    }
}

/// Law: the aggregate severity of a commit range depends only on which
/// messages the range holds, never on the order the walk yields them in: two
/// ranges with the same messages resolve to the same label.
pub proof fn lemma_bump_label_order_independent(
    scope_regex: Option<Seq<char>>,
    msgs_a: Seq<Seq<char>>,
    msgs_b: Seq<Seq<char>>,
    major_version_zero: bool,
)
    requires
        msgs_a.to_multiset() == msgs_b.to_multiset(),
    ensures
        bump_label(scope_regex, msgs_a, major_version_zero) == bump_label(
            scope_regex,
            msgs_b,
            major_version_zero,
        ),
{
    lemma_signals_from_multiset(scope_regex, msgs_a, msgs_b);
    lemma_signals_from_multiset(scope_regex, msgs_b, msgs_a);
}

/// The increment a label applies; `Release` leaves the version untouched
/// here, pre-release and all (stripping happens only on the explicit
/// release path).
pub open spec fn apply_label(v: VersionView, l: Label) -> VersionView {
    match l {
        Label::Major => spec_increment_major(v),
        Label::Minor => spec_increment_minor(v),
        Label::Patch => spec_increment_patch(v),
        Label::Release => v,
    }
}

// ------------------------------------------------------------------
// Trusted view of the semver crate
// ------------------------------------------------------------------

/// What `semver::Version::parse` yields on a string: `None` where the string
/// is not a semantic version, otherwise its fields.
pub uninterp spec fn semver_of(s: Seq<char>) -> Option<VersionView>;

/// Relies on `semver::Version::parse`: the outcome is a deterministic
/// function of the string alone; on success the numeric fields and the
/// pre-release and build-metadata identifiers are moved over unchanged.
#[verifier::external_body]
fn parse_semver(text: &str) -> (r: Option<Version>)
    ensures
        r matches Some(v) ==> semver_of(text@) == Some(v@),
        r is None ==> semver_of(text@) is None,
{
    match semver::Version::parse(text) {
        Ok(v) => Some(
            Version {
                major: v.major,
                minor: v.minor,
                patch: v.patch,
                pre_release: v.pre.as_str().to_owned(),
                build_metadata: v.build.as_str().to_owned(),
            },
        ),
        Err(_) => None,
    }
}

// ------------------------------------------------------------------
// Tag lookup
// ------------------------------------------------------------------

/// `tag` begins with `prefix`.
pub open spec fn has_prefix(prefix: Seq<char>, tag: Seq<char>) -> bool {
    prefix.len() <= tag.len() && tag.take(prefix.len() as int) == prefix
}

/// The version a tag name denotes: strip the configured prefix, then read
/// the remainder as a semantic version.
pub open spec fn tag_version(prefix: Seq<char>, tag: Seq<char>) -> Option<VersionView> {
    if has_prefix(prefix, tag) {
        semver_of(tag.skip(prefix.len() as int))
    } else {
        None
    }
}

/// The first tag in the list (ordered most recent first) that denotes a
/// version, together with that version.
pub open spec fn find_last_spec(prefix: Seq<char>, tags: Seq<Seq<char>>) -> Option<
    (Seq<char>, VersionView),
>
    decreases tags.len(),
{
    if tags.len() == 0 {
        None
    } else {
        match tag_version(prefix, tags[0]) {
            Some(v) => Some((tags[0], v)),
            None => find_last_spec(prefix, tags.skip(1)),
        }
    }
}

proof fn lemma_find_last_skip(prefix: Seq<char>, tags: Seq<Seq<char>>, i: int)
    requires
        0 <= i <= tags.len(),
        forall|j: int| 0 <= j < i ==> tag_version(prefix, #[trigger] tags[j]) is None,
    ensures
        find_last_spec(prefix, tags) == find_last_spec(prefix, tags.skip(i)),
    decreases i,
{
    if i == 0 {
        assert(tags.skip(0) =~= tags);
    }
    if i > 0 {
        assert(tag_version(prefix, tags[0]) is None);
        assert forall|j: int| 0 <= j < i - 1 implies tag_version(
            prefix,
            #[trigger] tags.skip(1)[j],
        ) is None by {
            assert(tags.skip(1)[j] == tags[j + 1]);
        }
        lemma_find_last_skip(prefix, tags.skip(1), i - 1);
        assert(tags.skip(1).skip(i - 1) =~= tags.skip(i));
    }
}

// ------------------------------------------------------------------
// The version command
// ------------------------------------------------------------------

/// The inputs of one version resolution: the manual-override and output
/// flags, and the tag prefix and target revision the surrounding command
/// layer uses for its git lookups.
pub struct VersionCommand {
    pub prefix: String,
    pub rev: String,
    pub major: bool,
    pub minor: bool,
    pub patch: bool,
    pub bump: bool,
    pub label: bool,
}

/// The mathematical model of a `VersionCommand`.
#[verifier::ext_equal]
pub struct VersionCommandView {
    pub prefix: Seq<char>,
    pub rev: Seq<char>,
    pub major: bool,
    pub minor: bool,
    pub patch: bool,
    pub bump: bool,
    pub label: bool,
}

impl View for VersionCommand {
    type V = VersionCommandView;

    open spec fn view(&self) -> VersionCommandView {
        VersionCommandView {
            prefix: self.prefix@,
            rev: self.rev@,
            major: self.major,
            minor: self.minor,
            patch: self.patch,
            bump: self.bump,
            label: self.label,
        }
    }
}

/// The version the whole resolution starts from when no tagged version
/// exists yet.
pub open spec fn initial_version() -> VersionView {
    VersionView {
        major: 0,
        minor: 1,
        patch: 0,
        pre_release: Seq::<char>::empty(),
        build_metadata: Seq::<char>::empty(),
    }
}

/// The last tagged version, if any, as a model value.
pub open spec fn last_view(last: Option<VersionAndTag>) -> Option<VersionView> {
    match last {
        Some(vt) => Some(vt.version@),
        None => None,
    }
}

/// The whole decision chain, in priority order: explicit numeric override;
/// releasing a pending pre-release; the automatic scan; no flags, no
/// change.
pub open spec fn resolve_spec(
    cmd: VersionCommandView,
    last: Option<VersionView>,
    scope_regex: Option<Seq<char>>,
    msgs: Seq<Seq<char>>,
) -> (VersionView, Label) {
    match last {
        None => (initial_version(), Label::Release),
        Some(v) => {
            if cmd.major {
                (spec_increment_major(v), Label::Major)
            } else if cmd.minor {
                (spec_increment_minor(v), Label::Minor)
            } else if cmd.patch {
                (spec_increment_patch(v), Label::Patch)
            } else if cmd.bump {
                if v.pre_release.len() > 0 {
                    (spec_release(v), Label::Release)
                } else {
                    (
                        apply_label(v, bump_label(scope_regex, msgs, v.major == 0)),
                        bump_label(scope_regex, msgs, v.major == 0),
                    )
                }
            } else {
                (v, Label::Release)
            }
        },
    }
}

impl VersionCommand {
    /// The most recent tag in `tags` (ordered most recent first) that, with
    /// the configured prefix stripped, reads as a semantic version.
    pub fn find_last_version(&self, tags: &Vec<String>) -> (r: Option<VersionAndTag>)
        ensures
            match r {
                Some(vt) => find_last_spec(self.prefix@, tags.deep_view()) == Some(
                    (vt.tag@, vt.version@),
                ),
                None => find_last_spec(self.prefix@, tags.deep_view()) is None,
            },
    {
        let ghost pfx = self.prefix@;
        let ghost tgs = tags.deep_view();
        let plen = self.prefix.as_str().unicode_len();
        let mut i: usize = 0;
        while i < tags.len()
            invariant
                0 <= i <= tags@.len(),
                tgs == tags.deep_view(),
                tgs.len() == tags@.len(),
                pfx == self.prefix@,
                plen == pfx.len(),
                forall|j: int| 0 <= j < i ==> tag_version(pfx, #[trigger] tgs[j]) is None,
            decreases tags@.len() - i,
        {
            let tag = &tags[i];
            proof {
                assert(tgs[i as int] == tags@[i as int]@);
            }
            let tlen = tag.as_str().unicode_len();
            if tlen >= plen {
                let head = tag.as_str().substring_char(0, plen).to_owned();
                if head == self.prefix {
                    let rest = tag.as_str().substring_char(plen, tlen);
                    proof {
                        assert(rest@ =~= tag@.skip(plen as int));
                        assert(tag@.take(plen as int) =~= head@);
                    }
                    match parse_semver(rest) {
                        Some(v) => {
                            proof {
                                assert(has_prefix(pfx, tgs[i as int]));
                                assert(tag_version(pfx, tgs[i as int]) == Some(v@));
                                lemma_find_last_skip(pfx, tgs, i as int);
                                assert(tgs.skip(i as int)[0] == tgs[i as int]);
                                assert(tgs.skip(i as int).len() > 0);
                            }
                            return Some(VersionAndTag { tag: tag.as_str().to_owned(), version: v });
                        },
                        None => {
                            proof {
                                assert(tag_version(pfx, tgs[i as int]) is None);
                            }
                        },
                    }
                } else {
                    proof {
                        assert(tag@.take(plen as int) =~= head@);
                        assert(!has_prefix(pfx, tgs[i as int]));
                    }
                }
            } else {
                proof {
                    assert(!has_prefix(pfx, tgs[i as int]));
                }
            }
            i = i + 1;
        }
        proof {
            lemma_find_last_skip(pfx, tgs, tgs.len() as int);
            assert(tgs.skip(tgs.len() as int) =~= Seq::<Seq<char>>::empty());
        }
        None
    }

    /// Scan the commit range and apply the aggregate increment to the last
    /// version. Unparsable messages are skipped; the scan stops as soon as a
    /// breaking commit fixes the outcome.
    ///
    /// - `fix` commits ask for a `Patch` release.
    /// - `feat` commits ask for a `Minor` release.
    /// - breaking commits (header `!` or `BREAKING CHANGE` footer),
    ///   regardless of type, ask for a `Major` release.
    ///
    /// In a major-version-zero project (0.y.z) each rule lands one level
    /// lower: `fix` and `feat` ask for `Patch`, breaking commits for
    /// `Minor`.
    pub fn find_bump_version(
        &self,
        last_version: Version,
        parser: &CommitParser,
        messages: &Vec<String>,
    ) -> (r: (Version, Label))
        requires
            last_version@.major < u64::MAX,
            last_version@.minor < u64::MAX,
            last_version@.patch < u64::MAX,
        ensures
            r.1 == bump_label(parser@, messages.deep_view(), last_version@.major == 0),
            r.0@ == apply_label(last_version@, r.1),
    {
        let ghost sr = parser@;
        let ghost msgs = messages.deep_view();
        let major_version_zero = last_version.major == 0;
        let mut saw_major = false;
        let mut saw_minor = false;
        let mut saw_patch = false;
        let mut stop = false;
        let mut i: usize = 0;
        while i < messages.len() && !stop
            invariant
                0 <= i <= messages@.len(),
                msgs == messages.deep_view(),
                msgs.len() == messages@.len(),
                sr == parser@,
                major_version_zero == (last_version@.major == 0),
                stop ==> exists|j: int|
                    0 <= j < i && #[trigger] is_breaking_commit(sr, msgs[j]),
                stop ==> (if major_version_zero {
                    saw_minor
                } else {
                    saw_major
                }),
                major_version_zero ==> !saw_major,
                !stop ==> !saw_major,
                !stop ==> (forall|j: int|
                    0 <= j < i ==> !#[trigger] is_breaking_commit(sr, msgs[j])),
                !stop ==> (saw_minor <==> (!major_version_zero && exists|j: int|
                    0 <= j < i && #[trigger] is_feat_commit(sr, msgs[j]))),
                !stop ==> (saw_patch <==> (exists|j: int|
                    0 <= j < i && #[trigger] is_patch_signal(sr, msgs[j], major_version_zero))),
            decreases messages@.len() - i,
        {
            let m = &messages[i];
            proof {
                assert(msgs[i as int] == messages@[i as int]@);
            }
            match parser.parse(m.as_str()) {
                Ok(pc) => {
                    proof {
                        assert(parse_result(sr, msgs[i as int]) == Some(pc@));
                    }
                    if pc.breaking {
                        if major_version_zero {
                            saw_minor = true;
                        } else {
                            saw_major = true;
                        }
                        stop = true;
                        proof {
                            assert(is_breaking_commit(sr, msgs[i as int]));
                        }
                    } else {
                        match pc.ty {
                            Type::Feat => {
                                if major_version_zero {
                                    saw_patch = true;
                                } else {
                                    saw_minor = true;
                                }
                                proof {
                                    assert(is_feat_commit(sr, msgs[i as int]));
                                    if major_version_zero {
                                        assert(is_patch_signal(
                                            sr,
                                            msgs[i as int],
                                            major_version_zero,
                                        ));
                                    }
                                }
                            },
                            Type::Fix => {
                                saw_patch = true;
                                proof {
                                    assert(is_fix_commit(sr, msgs[i as int]));
                                    assert(is_patch_signal(sr, msgs[i as int], major_version_zero));
                                }
                            },
                            Type::Other => {},
                        }
                    }
                },
                Err(_) => {
                    proof {
                        assert(parse_result(sr, msgs[i as int]) is None);
                    }
                },
            }
            i = i + 1;
        }
        proof {
            if stop {
                assert(any_breaking(sr, msgs));
            } else {
                assert(i == msgs.len());
                if any_breaking(sr, msgs) {
                    let j = choose|j: int|
                        0 <= j < msgs.len() && #[trigger] is_breaking_commit(sr, msgs[j]);
                    assert(!is_breaking_commit(sr, msgs[j]));
                }
                if saw_minor {
                    let j = choose|j: int| 0 <= j < i && #[trigger] is_feat_commit(sr, msgs[j]);
                    assert(any_feat(sr, msgs));
                }
                if !major_version_zero && any_feat(sr, msgs) {
                    let j = choose|j: int|
                        0 <= j < msgs.len() && #[trigger] is_feat_commit(sr, msgs[j]);
                    assert(saw_minor);
                }
                if saw_patch {
                    let j = choose|j: int|
                        0 <= j < i && #[trigger] is_patch_signal(sr, msgs[j], major_version_zero);
                    if is_fix_commit(sr, msgs[j]) {
                        assert(any_fix(sr, msgs));
                    } else {
                        assert(is_feat_commit(sr, msgs[j]));
                        assert(any_feat(sr, msgs));
                    }
                }
                if any_fix(sr, msgs) {
                    let j = choose|j: int|
                        0 <= j < msgs.len() && #[trigger] is_fix_commit(sr, msgs[j]);
                    assert(is_patch_signal(sr, msgs[j], major_version_zero));
                    assert(saw_patch);
                }
                if major_version_zero && any_feat(sr, msgs) {
                    let j = choose|j: int|
                        0 <= j < msgs.len() && #[trigger] is_feat_commit(sr, msgs[j]);
                    assert(is_patch_signal(sr, msgs[j], major_version_zero));
                    assert(saw_patch);
                }
            }
        }
        let mut version = last_version;
        let lab: Label;
        if saw_major {
            increment_major(&mut version);
            lab = Label::Major;
        } else if saw_minor {
            increment_minor(&mut version);
            lab = Label::Minor;
        } else if saw_patch {
            increment_patch(&mut version);
            lab = Label::Patch;
        } else {
            lab = Label::Release;
        }
        proof {
            assert(lab == bump_label(sr, msgs, major_version_zero));
        }
        (version, lab)
    }

    /// The whole decision chain. Manual `major` / `minor` / `patch` flags
    /// win unconditionally; `bump` first releases a pending pre-release and
    /// otherwise scans the commit range; with no flags the version is
    /// returned unchanged. With no last tagged version the result is the
    /// initial `0.1.0`, whatever the commits say.
    pub fn resolve(
        &self,
        last: Option<VersionAndTag>,
        parser: &CommitParser,
        messages: &Vec<String>,
    ) -> (r: (Version, Label))
        requires
            last matches Some(vt) ==> vt.version@.major < u64::MAX && vt.version@.minor
                < u64::MAX && vt.version@.patch < u64::MAX,
        ensures
            r.0@ == resolve_spec(self@, last_view(last), parser@, messages.deep_view()).0,
            r.1 == resolve_spec(self@, last_view(last), parser@, messages.deep_view()).1,
    {
        match last {
            None => {
                let v = Version {
                    major: 0,
                    minor: 1,
                    patch: 0,
                    pre_release: String::new(),
                    build_metadata: String::new(),
                };
                proof {
                    assert(v@ =~= initial_version());
                }
                (v, Label::Release)
            },
            Some(vt) => {
                let mut version = vt.version;
                if self.major {
                    increment_major(&mut version);
                    (version, Label::Major)
                } else if self.minor {
                    increment_minor(&mut version);
                    (version, Label::Minor)
                } else if self.patch {
                    increment_patch(&mut version);
                    (version, Label::Patch)
                } else if self.bump {
                    if !version.pre_release.as_str().is_empty() {
                        release(&mut version);
                        (version, Label::Release)
                    } else {
                        self.find_bump_version(version, parser, messages)
                    }
                } else {
                    (version, Label::Release)
                }
            },
        }
    }
}

} // verus!
