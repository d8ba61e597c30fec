//! Release versions: the version given on the command line, parsed as a
//! semantic version, and its text.

use vstd::prelude::*;
use vstd::string::*;
use crate::utils::text::{decimal_spec, push_decimal, trim, trim_spec, trim_start_spec, trim_end_spec, is_white_space};

verus! {

/// A pre-release or build identifier of a semantic version.
#[derive(Debug)]
pub enum VersionIdentifier {
    Numeric(u64),
    AlphaNumeric(String),
}

/// A semantic version.
#[derive(Debug)]
pub struct SemVersion {
    pub major: u64,
    pub minor: u64,
    pub patch: u64,
    pub pre: Vec<VersionIdentifier>,
    pub build: Vec<VersionIdentifier>,
}

/// The value of an identifier.
pub enum IdentifierView {
    Numeric(u64),
    AlphaNumeric(Seq<char>),
}

/// The value of a semantic version.
pub struct SemVersionView {
    pub major: u64,
    pub minor: u64,
    pub patch: u64,
    pub pre: Seq<IdentifierView>,
    pub build: Seq<IdentifierView>,
}

impl View for VersionIdentifier {
    type V = IdentifierView;

    open spec fn view(&self) -> IdentifierView {
        match self {
            VersionIdentifier::Numeric(n) => IdentifierView::Numeric(*n),
            VersionIdentifier::AlphaNumeric(s) => IdentifierView::AlphaNumeric(s@),
        }
    }
}

/// The values of a list of identifiers.
pub open spec fn identifier_views(ids: Seq<VersionIdentifier>) -> Seq<IdentifierView> {
    ids.map_values(|i: VersionIdentifier| i@)
}

impl View for SemVersion {
    type V = SemVersionView;

    open spec fn view(&self) -> SemVersionView {
        SemVersionView {
            major: self.major,
            minor: self.minor,
            patch: self.patch,
            pre: identifier_views(self.pre@),
            build: identifier_views(self.build@),
        }
    }
}

/// What `semver::Version::parse` gives for `s`: the version it reads, or
/// nothing when it rejects `s`.
pub uninterp spec fn semver_parse(s: Seq<char>) -> Option<SemVersionView>;

/// Calls `semver::Version::parse` and moves the fields of the version it
/// gives into a `SemVersion`; of an error it keeps the message. The
/// contract names the outcome `semver_parse` and claims nothing of which
/// texts the crate accepts.
#[verifier::external_body]
pub(crate) fn parse_semver(text: &str) -> (r: Result<SemVersion, String>)
    ensures
        match r {
            Ok(v) => semver_parse(text@) == Some(v@),
            Err(_) => semver_parse(text@) is None,
        },
{
    semver::Version::parse(text).map(|v| {
        let conv = |i: semver::Identifier| match i {
            semver::Identifier::Numeric(n) => VersionIdentifier::Numeric(n),
            semver::Identifier::AlphaNumeric(s) => VersionIdentifier::AlphaNumeric(s),
        };
        SemVersion { major: v.major, minor: v.minor, patch: v.patch,
            pre: v.pre.into_iter().map(conv).collect(), build: v.build.into_iter().map(conv).collect() }
    }).map_err(|semver::SemVerError::ParseError(m)| m)
}

/// The text of an identifier.
pub open spec fn identifier_text(i: IdentifierView) -> Seq<char> {
    match i {
        IdentifierView::Numeric(n) => decimal_spec(n as nat),
        IdentifierView::AlphaNumeric(s) => s,
    }
}

/// The texts of `ids` joined by `.`.
pub open spec fn joined_identifiers(ids: Seq<IdentifierView>) -> Seq<char>
    decreases ids.len(),
{
    if ids.len() == 0 {
        Seq::empty()
    } else if ids.len() == 1 {
        identifier_text(ids[0])
    } else {
        joined_identifiers(ids.drop_last()) + seq!['.'] + identifier_text(ids.last())
    }
}

/// The text of a version, as `semver::Version` displays it:
/// `major.minor.patch`, then `-` and the pre-release identifiers, then `+`
/// and the build identifiers, each list only when it is not empty.
pub open spec fn version_text(v: SemVersionView) -> Seq<char> {
    decimal_spec(v.major as nat) + seq!['.'] + decimal_spec(v.minor as nat) + seq!['.'] + decimal_spec(
        v.patch as nat,
    ) + (if v.pre.len() == 0 {
        Seq::empty()
    } else {
        seq!['-'] + joined_identifiers(v.pre)
    }) + (if v.build.len() == 0 {
        Seq::empty()
    } else {
        seq!['+'] + joined_identifiers(v.build)
    })
}

/// `v` without build metadata.
pub open spec fn without_build(v: SemVersionView) -> SemVersionView {
    SemVersionView { build: Seq::empty(), ..v }
}

/// `v` without pre-release identifiers or build metadata.
pub open spec fn release_core(v: SemVersionView) -> SemVersionView {
    SemVersionView { pre: Seq::empty(), build: Seq::empty(), ..v }
}

/// The text of a version is built from its parts: the three numbers joined
/// by `.`; then, when there are pre-release identifiers, `-` and those
/// identifiers joined by `.`; then, whenever there is build metadata
/// (whatever the pre-release part), `+` and the build identifiers joined by
/// `.`.
pub proof fn law_version_text_parts(v: SemVersionView)
    ensures
        version_text(release_core(v)) == decimal_spec(v.major as nat) + seq!['.'] + decimal_spec(v.minor as nat)
            + seq!['.'] + decimal_spec(v.patch as nat),
        v.pre.len() == 0 ==> version_text(without_build(v)) == version_text(release_core(v)),
        v.pre.len() > 0 ==> version_text(without_build(v)) == version_text(release_core(v)) + seq!['-']
            + joined_identifiers(v.pre),
        v.build.len() == 0 ==> version_text(v) == version_text(without_build(v)),
        v.build.len() > 0 ==> version_text(v) == version_text(without_build(v)) + seq!['+'] + joined_identifiers(
            v.build,
        ),
{
    assert(version_text(release_core(v)) =~= decimal_spec(v.major as nat) + seq!['.'] + decimal_spec(
        v.minor as nat,
    ) + seq!['.'] + decimal_spec(v.patch as nat));
    assert(version_text(without_build(v)) =~= version_text(release_core(v)) + (if v.pre.len() == 0 {
        Seq::empty()
    } else {
        seq!['-'] + joined_identifiers(v.pre)
    }));
    assert(version_text(v) =~= version_text(without_build(v)) + (if v.build.len() == 0 {
        Seq::empty()
    } else {
        seq!['+'] + joined_identifiers(v.build)
    }));
}

/// Identifiers are joined by `.`: one identifier is its own text, and one
/// more identifier adds `.` and its text at the end.
pub proof fn law_identifiers_joined_by_dot(ids: Seq<IdentifierView>, x: IdentifierView)
    ensures
        joined_identifiers(seq![x]) == identifier_text(x),
        ids.len() > 0 ==> joined_identifiers(ids.push(x)) == joined_identifiers(ids) + seq!['.'] + identifier_text(x),
{
    assert(ids.push(x).drop_last() =~= ids);
}

fn push_identifiers(out: &mut String, ids: &Vec<VersionIdentifier>)
    ensures
        final(out)@ == old(out)@ + joined_identifiers(identifier_views(ids@)),
{
    let ghost views = identifier_views(ids@);
    let mut i: usize = 0;
    assert(views.take(0) =~= Seq::<IdentifierView>::empty());
    assert(old(out)@ + joined_identifiers(views.take(0)) =~= old(out)@);
    while i < ids.len()
        invariant
            i <= ids@.len(),
            views == identifier_views(ids@),
            out@ == old(out)@ + joined_identifiers(views.take(i as int)),
        decreases ids@.len() - i,
    {
        let ghost before = out@;
        if i > 0 {
            proof { reveal_strlit("."); }
            out.append(".");
        }
        match &ids[i] {
            VersionIdentifier::Numeric(n) => push_decimal(out, *n),
            VersionIdentifier::AlphaNumeric(s) => out.append(s.as_str()),
        }
        proof {
            let t = views.take(i + 1);
            assert(t.drop_last() =~= views.take(i as int));
            assert(t.last() == ids@[i as int]@);
            if i == 0 {
                assert(joined_identifiers(t) == identifier_text(t[0]));
            }
            assert(out@ =~= old(out)@ + joined_identifiers(t));
        }
        i = i + 1;
    }
    assert(views.take(i as int) =~= views);
}

impl SemVersion {
    /// The text of this version, as `semver::Version` displays it.
    pub fn to_string(&self) -> (r: String)
        ensures
            r@ == version_text(self@),
    {
        let mut out = String::new();
        push_decimal(&mut out, self.major);
        proof { reveal_strlit("."); }
        out.append(".");
        push_decimal(&mut out, self.minor);
        out.append(".");
        push_decimal(&mut out, self.patch);
        let ghost base = out@;
        if self.pre.len() > 0 {
            proof { reveal_strlit("-"); }
            out.append("-");
            push_identifiers(&mut out, &self.pre);
        }
        let ghost with_pre = out@;
        if self.build.len() > 0 {
            proof { reveal_strlit("+"); }
            out.append("+");
            push_identifiers(&mut out, &self.build);
        }
        assert(out@ =~= version_text(self@));
        out
    }
}

} // verus!
