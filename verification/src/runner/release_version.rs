//! The release version given on the command line.

use vstd::prelude::*;
use vstd::string::*;
use crate::constants::VAR_NAME_VERSION;
use crate::error::ReleezError;
use crate::utils::text::{trim, trim_spec, trim_start_spec, trim_end_spec, is_white_space};
use crate::utils::var_subs::{VarTable, variable_value};
use crate::utils::version::{SemVersion, SemVersionView, parse_semver, semver_parse, version_text};

verus! {

/// `s` without its leading `v`s.
pub open spec fn strip_v_spec(s: Seq<char>) -> Seq<char>
    decreases s.len(),
{
    if s.len() > 0 && s[0] == 'v' {
        strip_v_spec(s.drop_first())
    } else {
        s
    }
}

/// The text that is read as a semantic version: the given text trimmed,
/// without its leading `v`s.
pub open spec fn release_version_text(s: Seq<char>) -> Seq<char> {
    strip_v_spec(trim_spec(s))
}

fn strip_leading_v(s: &str) -> (r: &str)
    ensures
        r@ == strip_v_spec(s@),
{
    let n = s.unicode_len();
    let mut i: usize = 0;
    assert(s@.skip(0) =~= s@);
    while i < n && s.get_char(i) == 'v'
        invariant
            n == s@.len(),
            i <= n,
            strip_v_spec(s@) == strip_v_spec(s@.skip(i as int)),
        decreases n - i,
    {
        proof {
            assert(s@.skip(i as int).drop_first() =~= s@.skip(i + 1));
        }
        i = i + 1;
    }
    proof {
        let t = s@.skip(i as int);
        if t.len() > 0 {
            assert(t[0] == s@[i as int]);
        }
        assert(t =~= s@.subrange(i as int, n as int));
    }
    s.substring_char(i, n)
}

/// The release version given as `release_version`: trimmed, without its
/// leading `v`s, read as a semantic version; an error when that text is not
/// one.
pub fn parse_release_version(release_version: &str) -> (r: Result<SemVersion, ReleezError>)
    ensures
        match r {
            Ok(v) => semver_parse(release_version_text(release_version@)) == Some(v@),
            Err(e) => semver_parse(release_version_text(release_version@)) is None && (e matches ReleezError::InvalidReleaseVersion { input, .. } && input@ == release_version@),
        },
{
    let stripped = strip_leading_v(trim(release_version));
    match parse_semver(stripped) {
        Ok(v) => Ok(v),
        Err(reason) => Err(ReleezError::InvalidReleaseVersion { input: release_version.to_owned(), reason }),
    }
}

/// The variables that instructions and commands of a release can use: the
/// release version under `VERSION`.
pub fn gen_vars_data(release_version: &SemVersion) -> (r: VarTable)
    ensures
        r@ == Map::<Seq<char>, Seq<char>>::empty().insert(VAR_NAME_VERSION@, version_text(release_version@)),
{
    let mut t = VarTable::new();
    t.insert(VAR_NAME_VERSION.to_owned(), release_version.to_string());
    t
}

proof fn lemma_trim_end_prefix_v(s: Seq<char>)
    ensures
        trim_end_spec(seq!['v'] + s) == seq!['v'] + trim_end_spec(s),
    decreases s.len(),
{
    if s.len() > 0 {
        assert((seq!['v'] + s).drop_last() =~= seq!['v'] + s.drop_last());
        assert((seq!['v'] + s).last() == s.last());
        lemma_trim_end_prefix_v(s.drop_last());
    } else {
        assert(seq!['v'] + s =~= seq!['v']);
    }
}

/// A leading `v` makes no difference to the release version: `v1.2.3` and
/// `1.2.3` name the same version (when the text after the `v` does not
/// start with whitespace).
pub proof fn law_leading_v_is_ignored(s: Seq<char>)
    requires
        s.len() == 0 || !is_white_space(s[0]),
    ensures
        release_version_text(seq!['v'] + s) == release_version_text(s),
{
    let vs = seq!['v'] + s;
    assert(vs[0] == 'v');
    assert(trim_start_spec(vs) == vs);
    assert(trim_start_spec(s) == s);
    lemma_trim_end_prefix_v(s);
    let t = trim_end_spec(s);
    assert((seq!['v'] + t).drop_first() =~= t);
}

/// Whitespace around the release version and one leading `v` make no
/// difference: ` v1.2.3 ` is read as `1.2.3`. Here `w1` and `w2` are any
/// whitespace, and `s` is the version text itself, which neither starts
/// nor ends with whitespace and does not start with `v`.
pub proof fn law_whitespace_and_v_are_ignored(w1: Seq<char>, s: Seq<char>, w2: Seq<char>)
    requires
        forall|i: int| 0 <= i < w1.len() ==> is_white_space(#[trigger] w1[i]),
        forall|i: int| 0 <= i < w2.len() ==> is_white_space(#[trigger] w2[i]),
        s.len() > 0,
        !is_white_space(s[0]),
        !is_white_space(s.last()),
        s[0] != 'v',
    ensures
        release_version_text(w1 + seq!['v'] + s + w2) == s,
        release_version_text(w1 + s + w2) == s,
        release_version_text(s) == s,
{
    let vs = seq!['v'] + s;
    assert(vs[0] == 'v');
    assert(vs.last() == s.last());
    lemma_trimmed_core(w1, vs, w2);
    assert(w1 + seq!['v'] + s + w2 =~= w1 + vs + w2);
    assert(vs.drop_first() =~= s);
    assert(strip_v_spec(s) == s);
    assert(strip_v_spec(vs) == strip_v_spec(vs.drop_first()));
    lemma_trimmed_core(w1, s, w2);
    lemma_trimmed_core(Seq::empty(), s, Seq::empty());
    assert(Seq::<char>::empty() + s + Seq::<char>::empty() =~= s);
}

proof fn lemma_trimmed_core(w1: Seq<char>, core: Seq<char>, w2: Seq<char>)
    requires
        forall|i: int| 0 <= i < w1.len() ==> is_white_space(#[trigger] w1[i]),
        forall|i: int| 0 <= i < w2.len() ==> is_white_space(#[trigger] w2[i]),
        core.len() > 0,
        !is_white_space(core[0]),
        !is_white_space(core.last()),
    ensures
        trim_spec(w1 + core + w2) == core,
{
    let t = w1 + core + w2;
    assert forall|k: int| 0 <= k < w1.len() implies is_white_space(#[trigger] t[k]) by {
        assert(t[k] == w1[k]);
    }
    crate::utils::text::lemma_trim_start_skip(t, w1.len() as int);
    let u = t.skip(w1.len() as int);
    assert(u =~= core + w2);
    assert(u[0] == core[0]);
    assert(trim_start_spec(u) == u);
    assert forall|k: int| core.len() <= k < u.len() implies is_white_space(#[trigger] u[k]) by {
        assert(u[k] == w2[k - core.len()]);
    }
    crate::utils::text::lemma_trim_end_take(u, core.len() as int);
    assert(u.take(core.len() as int) =~= core);
    assert(trim_end_spec(core) == core);
}

/// `$VERSION` in an instruction stands for the release version, whatever
/// the environment holds.
pub proof fn law_version_variable_is_release_version(
    version: SemVersionView,
    vars: Map<Seq<char>, Seq<char>>,
    env: Map<Seq<char>, Seq<char>>,
)
    requires
        vars == Map::<Seq<char>, Seq<char>>::empty().insert(VAR_NAME_VERSION@, version_text(version)),
    ensures
        variable_value(vars, env, VAR_NAME_VERSION@) == version_text(version),
{
}

} // verus!
