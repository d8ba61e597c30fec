//! Variables in instructions: `$NAME` and `${ NAME }` are replaced by the
//! value of `NAME`, taken from the release's own variables first and from
//! the environment after.

use vstd::prelude::*;
use vstd::string::*;
use crate::types::release_config::string_views;
use crate::utils::text::{is_white_space, str_equal};

verus! {

/// The pattern of a variable reference: `$` and a name, or `${`, a name
/// between optional whitespace, and `}`. The name is the first or the
/// second capture group.
pub const VARIABLE_PATTERN: &'static str = r"(?:\$([a-zA-Z\d_]+))|(?:\$\{\s*([a-zA-Z\d_]+)\s*\})";

#[verifier::external_type_specification]
#[verifier::external_body]
pub struct ExRegex(regex::Regex);

/// `VARIABLE_PATTERN`, compiled. Its field is private and
/// `compile_variable_pattern` is the only thing that makes one, from
/// `VARIABLE_PATTERN` alone, so every value of this type holds that one
/// pattern.
struct VariablePattern {
    regex: regex::Regex,
}

/// Calls `regex::Regex::new` on `pattern`, which is `VARIABLE_PATTERN`; the
/// crate accepts that pattern, so the `unwrap` does not panic. Nothing is
/// claimed of the result but its type.
#[verifier::external_body]
fn compile_variable_pattern(pattern: &str) -> (r: VariablePattern)
    requires
        pattern@ == VARIABLE_PATTERN@,
{
    VariablePattern { regex: regex::Regex::new(pattern).unwrap() }
}

/// A capture of the pattern: the text of the match, then capture group 1
/// (the name after a bare `$`) and capture group 2 (the name between
/// braces), each present only when it took part in the match.
pub type CaptureView = (Seq<char>, Option<Seq<char>>, Option<Seq<char>>);

/// What `Regex::split` yields for `VARIABLE_PATTERN` on `text`: the parts
/// of `text` around the variable references.
pub uninterp spec fn variable_split(text: Seq<char>) -> Seq<Seq<char>>;

/// What `Regex::captures_iter` yields for `VARIABLE_PATTERN` on `text`:
/// for each variable reference, left to right, its capture.
pub uninterp spec fn variable_captures(text: Seq<char>) -> Seq<CaptureView>;

/// `pieces[0] + fillers[0] + pieces[1] + ... + fillers[n-1] + pieces[n]`.
pub open spec fn interleave(pieces: Seq<Seq<char>>, fillers: Seq<Seq<char>>) -> Seq<char>
    decreases fillers.len(),
{
    if fillers.len() == 0 || pieces.len() == 0 {
        if pieces.len() == 0 {
            Seq::empty()
        } else {
            pieces[0]
        }
    } else {
        interleave(pieces.drop_last(), fillers.drop_last()) + fillers.last() + pieces.last()
    }
}

/// Whether `c` is in the Unicode general category `Nd` (decimal digits),
/// the class that the regex crate gives `\d`; the ranges are those of its
/// `DECIMAL_NUMBER` table (Unicode 16.0.0).
pub open spec fn is_decimal_number(c: char) -> bool {
    ||| ('\u{30}' <= c && c <= '\u{39}')
    ||| ('\u{660}' <= c && c <= '\u{669}')
    ||| ('\u{6f0}' <= c && c <= '\u{6f9}')
    ||| ('\u{7c0}' <= c && c <= '\u{7c9}')
    ||| ('\u{966}' <= c && c <= '\u{96f}')
    ||| ('\u{9e6}' <= c && c <= '\u{9ef}')
    ||| ('\u{a66}' <= c && c <= '\u{a6f}')
    ||| ('\u{ae6}' <= c && c <= '\u{aef}')
    ||| ('\u{b66}' <= c && c <= '\u{b6f}')
    ||| ('\u{be6}' <= c && c <= '\u{bef}')
    ||| ('\u{c66}' <= c && c <= '\u{c6f}')
    ||| ('\u{ce6}' <= c && c <= '\u{cef}')
    ||| ('\u{d66}' <= c && c <= '\u{d6f}')
    ||| ('\u{de6}' <= c && c <= '\u{def}')
    ||| ('\u{e50}' <= c && c <= '\u{e59}')
    ||| ('\u{ed0}' <= c && c <= '\u{ed9}')
    ||| ('\u{f20}' <= c && c <= '\u{f29}')
    ||| ('\u{1040}' <= c && c <= '\u{1049}')
    ||| ('\u{1090}' <= c && c <= '\u{1099}')
    ||| ('\u{17e0}' <= c && c <= '\u{17e9}')
    ||| ('\u{1810}' <= c && c <= '\u{1819}')
    ||| ('\u{1946}' <= c && c <= '\u{194f}')
    ||| ('\u{19d0}' <= c && c <= '\u{19d9}')
    ||| ('\u{1a80}' <= c && c <= '\u{1a89}')
    ||| ('\u{1a90}' <= c && c <= '\u{1a99}')
    ||| ('\u{1b50}' <= c && c <= '\u{1b59}')
    ||| ('\u{1bb0}' <= c && c <= '\u{1bb9}')
    ||| ('\u{1c40}' <= c && c <= '\u{1c49}')
    ||| ('\u{1c50}' <= c && c <= '\u{1c59}')
    ||| ('\u{a620}' <= c && c <= '\u{a629}')
    ||| ('\u{a8d0}' <= c && c <= '\u{a8d9}')
    ||| ('\u{a900}' <= c && c <= '\u{a909}')
    ||| ('\u{a9d0}' <= c && c <= '\u{a9d9}')
    ||| ('\u{a9f0}' <= c && c <= '\u{a9f9}')
    ||| ('\u{aa50}' <= c && c <= '\u{aa59}')
    ||| ('\u{abf0}' <= c && c <= '\u{abf9}')
    ||| ('\u{ff10}' <= c && c <= '\u{ff19}')
    ||| ('\u{104a0}' <= c && c <= '\u{104a9}')
    ||| ('\u{10d30}' <= c && c <= '\u{10d39}')
    ||| ('\u{10d40}' <= c && c <= '\u{10d49}')
    ||| ('\u{11066}' <= c && c <= '\u{1106f}')
    ||| ('\u{110f0}' <= c && c <= '\u{110f9}')
    ||| ('\u{11136}' <= c && c <= '\u{1113f}')
    ||| ('\u{111d0}' <= c && c <= '\u{111d9}')
    ||| ('\u{112f0}' <= c && c <= '\u{112f9}')
    ||| ('\u{11450}' <= c && c <= '\u{11459}')
    ||| ('\u{114d0}' <= c && c <= '\u{114d9}')
    ||| ('\u{11650}' <= c && c <= '\u{11659}')
    ||| ('\u{116c0}' <= c && c <= '\u{116c9}')
    ||| ('\u{116d0}' <= c && c <= '\u{116e3}')
    ||| ('\u{11730}' <= c && c <= '\u{11739}')
    ||| ('\u{118e0}' <= c && c <= '\u{118e9}')
    ||| ('\u{11950}' <= c && c <= '\u{11959}')
    ||| ('\u{11bf0}' <= c && c <= '\u{11bf9}')
    ||| ('\u{11c50}' <= c && c <= '\u{11c59}')
    ||| ('\u{11d50}' <= c && c <= '\u{11d59}')
    ||| ('\u{11da0}' <= c && c <= '\u{11da9}')
    ||| ('\u{11f50}' <= c && c <= '\u{11f59}')
    ||| ('\u{16130}' <= c && c <= '\u{16139}')
    ||| ('\u{16a60}' <= c && c <= '\u{16a69}')
    ||| ('\u{16ac0}' <= c && c <= '\u{16ac9}')
    ||| ('\u{16b50}' <= c && c <= '\u{16b59}')
    ||| ('\u{16d70}' <= c && c <= '\u{16d79}')
    ||| ('\u{1ccf0}' <= c && c <= '\u{1ccf9}')
    ||| ('\u{1d7ce}' <= c && c <= '\u{1d7ff}')
    ||| ('\u{1e140}' <= c && c <= '\u{1e149}')
    ||| ('\u{1e2f0}' <= c && c <= '\u{1e2f9}')
    ||| ('\u{1e4f0}' <= c && c <= '\u{1e4f9}')
    ||| ('\u{1e5f1}' <= c && c <= '\u{1e5fa}')
    ||| ('\u{1e950}' <= c && c <= '\u{1e959}')
    ||| ('\u{1fbf0}' <= c && c <= '\u{1fbf9}')
}

/// Whether `c` may stand in a variable name: the class `[a-zA-Z\d_]` of the
/// pattern, where `\d` is a Unicode decimal digit.
pub open spec fn is_name_char(c: char) -> bool {
    ||| ('a' <= c && c <= 'z')
    ||| ('A' <= c && c <= 'Z')
    ||| c == '_'
    ||| is_decimal_number(c)
}

/// Whether `s` is a variable name: one or more name characters.
pub open spec fn is_name(s: Seq<char>) -> bool {
    s.len() > 0 && forall|i: int| 0 <= i < s.len() ==> is_name_char(#[trigger] s[i])
}

/// Whether all characters of `s` are whitespace (`\s`, the Unicode
/// `White_Space` property).
pub open spec fn all_white_space(s: Seq<char>) -> bool {
    forall|i: int| 0 <= i < s.len() ==> is_white_space(#[trigger] s[i])
}

/// Whether `raw` is `${`, whitespace, `name`, whitespace and `}`.
pub open spec fn is_braced_reference(raw: Seq<char>, name: Seq<char>) -> bool {
    exists|w1: Seq<char>, w2: Seq<char>|
        all_white_space(w1) && all_white_space(w2) && raw == seq!['$', '{'] + w1 + name + w2 + seq!['}']
}

/// Whether `s` is, as a whole, a reference to some variable in one of the
/// two forms of the pattern.
pub open spec fn is_reference_text(s: Seq<char>) -> bool {
    exists|n: Seq<char>| is_name(n) && (s == seq!['$'] + n || is_braced_reference(s, n))
}

/// Whether some part of `text` is a variable reference: a `$` followed by a
/// name character, or by `{`, optional whitespace, a name, optional
/// whitespace and `}`.
pub open spec fn mentions_variable(text: Seq<char>) -> bool {
    exists|i: int, j: int| 0 <= i < j <= text.len() && #[trigger] is_reference_text(text.subrange(i, j))
}

/// Whether a capture is what the pattern matches: group 1 alone holds a
/// name and the match is `$` and that name, or group 2 alone holds a name
/// and the match is that name in braces.
pub open spec fn capture_is_reference(c: CaptureView) -> bool {
    match c.1 {
        Some(n) => c.2 is None && is_name(n) && c.0 == seq!['$'] + n,
        None => match c.2 {
            Some(n) => is_name(n) && is_braced_reference(c.0, n),
            None => false,
        },
    }
}

/// The variable name of a capture: the group that holds it.
pub open spec fn capture_name(c: CaptureView) -> Seq<char> {
    match c.1 {
        Some(n) => n,
        None => match c.2 {
            Some(n) => n,
            None => Seq::empty(),
        },
    }
}

/// The view of an optional string.
pub open spec fn option_view(o: Option<String>) -> Option<Seq<char>> {
    match o {
        Some(s) => Some(s@),
        None => None,
    }
}

/// The views of a list of captures.
pub open spec fn captures_view(caps: Seq<(String, Option<String>, Option<String>)>) -> Seq<CaptureView> {
    caps.map_values(|c: (String, Option<String>, Option<String>)| (c.0@, option_view(c.1), option_view(c.2)))
}

/// The texts of the references in a capture list.
pub open spec fn reference_texts(caps: Seq<CaptureView>) -> Seq<Seq<char>> {
    caps.map_values(|c: CaptureView| c.0)
}

/// The names in a capture list.
pub open spec fn reference_names(caps: Seq<CaptureView>) -> Seq<Seq<char>> {
    caps.map_values(|c: CaptureView| capture_name(c))
}

/// Calls `Regex::split` on the compiled `VARIABLE_PATTERN`. The regex crate
/// documents that `split` yields the parts of the text between the matches,
/// the first and the last included, and its source finds those matches as
/// `captures_iter` does. The contract names the result `variable_split`
/// and claims: one more part than references, and the parts with the
/// reference texts between them make up the text.
#[verifier::external_body]
fn split_around_variables(pattern: &VariablePattern, text: &str) -> (r: Vec<String>)
    ensures
        string_views(r@) == variable_split(text@),
        r@.len() == variable_captures(text@).len() + 1,
        interleave(string_views(r@), reference_texts(variable_captures(text@))) == text@,
{
    pattern.regex.split(text).map(|piece| piece.to_string()).collect()
}

/// Calls `Regex::captures_iter` on the compiled `VARIABLE_PATTERN` and takes
/// from each match its text and its two capture groups. The contract names
/// the result `variable_captures` and claims what a match of the pattern
/// is: `$` and a name in group 1, or `${`, whitespace (`\s`), a name in
/// group 2, whitespace and `}`, a name being one or more of `[a-zA-Z\d_]`.
#[verifier::external_body]
fn capture_variables(pattern: &VariablePattern, text: &str) -> (r: Vec<(String, Option<String>, Option<String>)>)
    ensures
        captures_view(r@) == variable_captures(text@),
        forall|i: int| 0 <= i < r@.len() ==> capture_is_reference(#[trigger] variable_captures(text@)[i]),
{
    pattern.regex.captures_iter(text).map(|caps| (
        caps[0].to_string(),
        caps.get(1).map(|m| m.as_str().to_string()),
        caps.get(2).map(|m| m.as_str().to_string()),
    )).collect()
}

/// A table of variables; a later entry for a name replaces an earlier one.
pub struct VarTable {
    entries: Vec<(String, String)>,
}

/// The map that a list of entries stands for, later entries winning.
pub open spec fn entries_map(entries: Seq<(String, String)>) -> Map<Seq<char>, Seq<char>>
    decreases entries.len(),
{
    if entries.len() == 0 {
        Map::empty()
    } else {
        entries_map(entries.drop_last()).insert(entries.last().0@, entries.last().1@)
    }
}

proof fn lemma_entries_map_suffix(entries: Seq<(String, String)>, i: int, key: Seq<char>)
    requires
        0 <= i <= entries.len(),
        forall|j: int| i <= j < entries.len() ==> (#[trigger] entries[j]).0@ != key,
    ensures
        entries_map(entries).contains_key(key) == entries_map(entries.take(i)).contains_key(key),
        entries_map(entries).contains_key(key) ==> entries_map(entries)[key] == entries_map(entries.take(i))[key],
    decreases entries.len() - i,
{
    if i < entries.len() {
        assert(entries.take(entries.len() - 1) == entries.drop_last());
        assert(entries.drop_last().take(i) == entries.take(i));
        lemma_entries_map_suffix(entries.drop_last(), i, key);
    } else {
        assert(entries.take(i) == entries);
    }
}

impl View for VarTable {
    type V = Map<Seq<char>, Seq<char>>;

    closed spec fn view(&self) -> Map<Seq<char>, Seq<char>> {
        entries_map(self.entries@)
    }
}

impl VarTable {
    /// An empty table.
    pub fn new() -> (r: VarTable)
        ensures
            r@ == Map::<Seq<char>, Seq<char>>::empty(),
    {
        let r = VarTable { entries: Vec::new() };
        assert(r@ == entries_map(r.entries@));
        r
    }

    /// Sets variable `name` to `value`.
    pub fn insert(&mut self, name: String, value: String)
        ensures
            final(self)@ == old(self)@.insert(name@, value@),
    {
        let ghost before = self.entries@;
        self.entries.push((name, value));
        proof {
            assert(self.entries@.drop_last() == before);
        }
    }

    /// The entries of the table in the order they were set; a later entry
    /// for a name replaces an earlier one.
    pub fn entries(&self) -> (r: &Vec<(String, String)>)
        ensures
            entries_map(r@) == self@,
    {
        &self.entries
    }

    /// The value of variable `name`, if the table has one.
    pub fn get(&self, name: &str) -> (r: Option<&String>)
        ensures
            r matches Some(v) ==> self@.contains_key(name@) && v@ == self@[name@],
            r is None ==> !self@.contains_key(name@),
    {
        let mut i: usize = self.entries.len();
        while i > 0
            invariant
                i <= self.entries@.len(),
                forall|j: int| i <= j < self.entries@.len() ==> (#[trigger] self.entries@[j]).0@ != name@,
            decreases i,
        {
            let entry = &self.entries[i - 1];
            if str_equal(entry.0.as_str(), name) {
                proof {
                    lemma_entries_map_suffix(self.entries@, i as int, name@);
                    assert(self.entries@.take(i as int).drop_last() == self.entries@.take(i - 1));
                    assert(self.entries@.take(i as int).last() == self.entries@[i - 1]);
                }
                return Some(&entry.1);
            }
            i = i - 1;
        }
        proof {
            lemma_entries_map_suffix(self.entries@, 0, name@);
            assert(self.entries@.take(0) == Seq::<(String, String)>::empty());
        }
        None
    }
}

/// The value a variable takes: the release's own value if there is one,
/// else the environment's, else empty.
pub open spec fn variable_value(
    vars: Map<Seq<char>, Seq<char>>,
    env: Map<Seq<char>, Seq<char>>,
    name: Seq<char>,
) -> Seq<char> {
    if vars.contains_key(name) {
        vars[name]
    } else if env.contains_key(name) {
        env[name]
    } else {
        Seq::empty()
    }
}

/// The values that the references of a capture list take.
pub open spec fn reference_values(
    caps: Seq<CaptureView>,
    vars: Map<Seq<char>, Seq<char>>,
    env: Map<Seq<char>, Seq<char>>,
) -> Seq<Seq<char>> {
    caps.map_values(|c: CaptureView| variable_value(vars, env, capture_name(c)))
}

/// `text` with each variable reference replaced by the variable's value.
pub open spec fn substituted_text(
    text: Seq<char>,
    vars: Map<Seq<char>, Seq<char>>,
    env: Map<Seq<char>, Seq<char>>,
) -> Seq<char> {
    interleave(variable_split(text), reference_values(variable_captures(text), vars, env))
}

proof fn lemma_filler_inside(pieces: Seq<Seq<char>>, fillers: Seq<Seq<char>>, k: int)
    requires
        pieces.len() == fillers.len() + 1,
        0 <= k < fillers.len(),
    ensures
        exists|off: int|
            0 <= off && off + fillers[k].len() <= interleave(pieces, fillers).len()
                && #[trigger] interleave(pieces, fillers).subrange(off, off + fillers[k].len()) == fillers[k],
    decreases fillers.len(),
{
    let front = interleave(pieces.drop_last(), fillers.drop_last());
    let whole = interleave(pieces, fillers);
    assert(whole == front + fillers.last() + pieces.last());
    if k == fillers.len() - 1 {
        let off = front.len() as int;
        assert(whole.subrange(off, off + fillers[k].len()) =~= fillers[k]);
    } else {
        lemma_filler_inside(pieces.drop_last(), fillers.drop_last(), k);
        assert(fillers.drop_last()[k] == fillers[k]);
        let off = choose|off: int|
            0 <= off && off + fillers[k].len() <= front.len()
                && #[trigger] front.subrange(off, off + fillers[k].len()) == fillers[k];
        assert(whole.subrange(off, off + fillers[k].len()) =~= front.subrange(off, off + fillers[k].len()));
    }
}

/// A text in which no `$` starts a variable reference has no variable
/// references in it; in particular a text without `$` has none.
proof fn lemma_no_mention_no_capture(text: Seq<char>, pieces: Seq<Seq<char>>)
    requires
        pieces.len() == variable_captures(text).len() + 1,
        interleave(pieces, reference_texts(variable_captures(text))) == text,
        forall|i: int| 0 <= i < variable_captures(text).len() ==> capture_is_reference(#[trigger] variable_captures(text)[i]),
        !mentions_variable(text),
    ensures
        variable_captures(text).len() == 0,
{
    let cv = variable_captures(text);
    if cv.len() > 0 {
        let raw = reference_texts(cv)[0];
        assert(raw == cv[0].0);
        assert(capture_is_reference(cv[0]));
        let n = capture_name(cv[0]);
        assert(is_reference_text(raw)) by {
            assert(is_name(n) && (raw == seq!['$'] + n || is_braced_reference(raw, n)));
        }
        assert(raw.len() > 0) by {
            if raw == seq!['$'] + n {
                assert(raw[0] == '$');
            } else {
                let (w1, w2) = choose|w1: Seq<char>, w2: Seq<char>|
                    all_white_space(w1) && all_white_space(w2) && raw == seq!['$', '{'] + w1 + n + w2 + seq!['}'];
                assert(raw[0] == '$');
            }
        }
        lemma_filler_inside(pieces, reference_texts(cv), 0);
        let off = choose|off: int|
            0 <= off && off + raw.len() <= text.len() && #[trigger] text.subrange(off, off + raw.len()) == raw;
        assert(is_reference_text(text.subrange(off, off + raw.len())));
        assert(mentions_variable(text));
    }
}

/// A reference text begins with `$`.
proof fn lemma_reference_text_starts_with_dollar(s: Seq<char>)
    requires
        is_reference_text(s),
    ensures
        s.len() > 0 && s[0] == '$',
{
    let n = choose|n: Seq<char>| is_name(n) && (s == seq!['$'] + n || is_braced_reference(s, n));
    if s != seq!['$'] + n {
        let (w1, w2) = choose|w1: Seq<char>, w2: Seq<char>|
            all_white_space(w1) && all_white_space(w2) && s == seq!['$', '{'] + w1 + n + w2 + seq!['}'];
    }
}

/// A text without `$` mentions no variable.
proof fn lemma_no_dollar_no_mention(text: Seq<char>)
    requires
        !text.contains('$'),
    ensures
        !mentions_variable(text),
{
    if mentions_variable(text) {
        let (i, j) = choose|i: int, j: int| 0 <= i < j <= text.len() && #[trigger] is_reference_text(text.subrange(i, j));
        lemma_reference_text_starts_with_dollar(text.subrange(i, j));
        assert(text[i] == text.subrange(i, j)[0]);
    }
}

/// The name of a capture, from the group that holds it.
fn name_of_capture(capture: &(String, Option<String>, Option<String>)) -> (r: String)
    ensures
        r@ == capture_name((capture.0@, option_view(capture.1), option_view(capture.2))),
{
    match &capture.1 {
        Some(n) => n.clone(),
        None => match &capture.2 {
            Some(n) => n.clone(),
            None => String::new(),
        },
    }
}

/// The names of the variables that `text` refers to, in order.
pub fn referenced_variable_names(text: &str) -> (r: Vec<String>)
    ensures
        string_views(r@) == reference_names(variable_captures(text@)),
{
    let pattern = compile_variable_pattern(VARIABLE_PATTERN);
    let caps = capture_variables(&pattern, text);
    let ghost cv = variable_captures(text@);
    let mut r: Vec<String> = Vec::new();
    assert(cv.len() == caps@.len());
    assert(string_views(r@) =~= reference_names(cv).take(0));
    let mut i: usize = 0;
    while i < caps.len()
        invariant
            i <= caps@.len(),
            captures_view(caps@) == cv,
            cv.len() == caps@.len(),
            string_views(r@) == reference_names(cv).take(i as int),
        decreases caps@.len() - i,
    {
        assert(cv[i as int] == (caps@[i as int].0@, option_view(caps@[i as int].1), option_view(caps@[i as int].2)));
        assert(reference_names(cv)[i as int] == capture_name(cv[i as int]));
        let ghost before = r@;
        let name = name_of_capture(&caps[i]);
        r.push(name);
        assert(string_views(r@) =~= string_views(before).push(name@));
        assert(string_views(r@) =~= reference_names(cv).take(i + 1));
        i = i + 1;
    }
    assert(reference_names(cv).take(i as int) =~= reference_names(cv));
    r
}

/// The parts around the references with each reference replaced by the
/// value of its variable: the value in `vars_data`, or else in `env`, or
/// else nothing. `pieces` and `captures` are what splitting a text around
/// its references and capturing them give.
pub fn substitute_in_parts(
    pieces: &Vec<String>,
    captures: &Vec<(String, Option<String>, Option<String>)>,
    vars_data: &VarTable,
    env: &VarTable,
) -> (r: String)
    requires
        pieces@.len() == captures@.len() + 1,
    ensures
        r@ == interleave(string_views(pieces@), reference_values(captures_view(captures@), vars_data@, env@)),
{
    let ghost cv = captures_view(captures@);
    let ghost values = reference_values(cv, vars_data@, env@);
    let ghost ps = string_views(pieces@);
    let mut r = pieces[0].clone();
    assert(ps.take(1).drop_last() =~= Seq::<Seq<char>>::empty());
    assert(values.take(0) =~= Seq::<Seq<char>>::empty());
    let mut i: usize = 0;
    while i < captures.len()
        invariant
            i <= captures@.len(),
            cv.len() == captures@.len(),
            pieces@.len() == captures@.len() + 1,
            ps == string_views(pieces@),
            cv == captures_view(captures@),
            values == reference_values(cv, vars_data@, env@),
            r@ == interleave(ps.take(i + 1), values.take(i as int)),
        decreases captures@.len() - i,
    {
        assert(cv[i as int] == (captures@[i as int].0@, option_view(captures@[i as int].1), option_view(captures@[i as int].2)));
        assert(values[i as int] == variable_value(vars_data@, env@, capture_name(cv[i as int])));
        let name = name_of_capture(&captures[i]);
        let value = match vars_data.get(name.as_str()) {
            Some(v) => v,
            None => match env.get(name.as_str()) {
                Some(v) => v,
                None => &String::new(),
            },
        };
        assert(value@ == values[i as int]);
        r.append(value.as_str());
        r.append(pieces[i + 1].as_str());
        proof {
            let p2 = ps.take(i + 2);
            let v2 = values.take(i + 1);
            assert(p2.drop_last() =~= ps.take(i + 1));
            assert(v2.drop_last() =~= values.take(i as int));
            assert(p2.last() == pieces@[i + 1]@);
            assert(r@ =~= interleave(p2, v2));
        }
        i = i + 1;
    }
    assert(ps.take(i + 1) =~= ps);
    assert(values.take(i as int) =~= values);
    r
}

/// `text` with each `$NAME` and `${ NAME }` replaced by the value of `NAME`
/// in `vars_data`, or else in `env`, or else by nothing. A text in which
/// no variable is referenced comes back unchanged.
pub fn substitute_variable_in_text(text: &str, vars_data: &VarTable, env: &VarTable) -> (r: String)
    ensures
        r@ == substituted_text(text@, vars_data@, env@),
        variable_captures(text@).len() == 0 ==> r@ == text@,
        !mentions_variable(text@) ==> r@ == text@,
        !text@.contains('$') ==> r@ == text@,
{
    let pattern = compile_variable_pattern(VARIABLE_PATTERN);
    let pieces = split_around_variables(&pattern, text);
    let caps = capture_variables(&pattern, text);
    let ghost cv = variable_captures(text@);
    proof {
        assert(cv.len() == caps@.len());
        if !text@.contains('$') {
            lemma_no_dollar_no_mention(text@);
        }
        if !mentions_variable(text@) {
            lemma_no_mention_no_capture(text@, string_views(pieces@));
        }
    }
    let r = substitute_in_parts(&pieces, &caps, vars_data, env);
    proof {
        if cv.len() == 0 {
            assert(reference_texts(cv) =~= Seq::<Seq<char>>::empty());
            assert(reference_values(cv, vars_data@, env@) =~= Seq::<Seq<char>>::empty());
            assert(interleave(string_views(pieces@), reference_texts(cv)) == string_views(pieces@)[0]);
        }
    }
    r
}

} // verus!
