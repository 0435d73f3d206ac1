//! Text helpers of the debug and artifact reports: safe file-name parts, HTML
//! escaping, class names and the artifact version check.
use vstd::prelude::*;
use vstd::string::StringExecFns;

use crate::settings::Args;
use crate::text::{chars_of, push_char, push_decimal, decimal_text, string_from_chars, string_of};

verus! {

/// Version of the model artifacts this library reads and writes.
pub const ARTIFACT_VERSION: u32 = 1;

/// A refused model artifact.
#[derive(Debug, Clone, Copy, PartialEq, Eq, Structural)]
pub enum ArtifactError {
    /// The artifact was written in another format version.
    UnsupportedVersion(u32),
}

/// Accepts only artifacts of the current version.
pub fn validate_version(version: u32) -> (r: Result<(), ArtifactError>)
    ensures
        version == ARTIFACT_VERSION ==> r is Ok,
        version != ARTIFACT_VERSION ==> r == Err::<(), ArtifactError>(
            ArtifactError::UnsupportedVersion(version),
        ),
{
    if version == ARTIFACT_VERSION {
        Ok(())
    } else {
        Err(ArtifactError::UnsupportedVersion(version))
    }
}

pub open spec fn is_ascii_alphanumeric(c: char) -> bool {
    ('a' <= c <= 'z') || ('A' <= c <= 'Z') || ('0' <= c <= '9')
}

/// A character kept in a file-name part: ASCII letters and digits, `-` and
/// `_`; anything else becomes `_`.
pub open spec fn file_safe(c: char) -> char {
    if is_ascii_alphanumeric(c) || c == '-' || c == '_' {
        c
    } else {
        '_'
    }
}

fn file_safe_char(c: char) -> (r: char)
    ensures
        r == file_safe(c),
{
    if ('a' <= c && c <= 'z') || ('A' <= c && c <= 'Z') || ('0' <= c && c <= '9') || c == '-' || c
        == '_' {
        c
    } else {
        '_'
    }
}

fn file_safe_chars(value: &str) -> (r: Vec<char>)
    ensures
        r@ == value@.map_values(|c: char| file_safe(c)),
{
    let cs = chars_of(value);
    let mut out: Vec<char> = Vec::new();
    let mut i: usize = 0;
    while i < cs.len()
        invariant
            i <= cs@.len(),
            cs@ == value@,
            out@ == cs@.take(i as int).map_values(|c: char| file_safe(c)),
        decreases cs@.len() - i,
    {
        out.push(file_safe_char(cs[i]));
        i = i + 1;
        assert(out@ =~= cs@.take(i as int).map_values(|c: char| file_safe(c)));
    }
    assert(cs@.take(i as int) =~= cs@);
    out
}

/// A path part made safe: unsafe characters become `_`, and an empty result
/// becomes `sample`.
pub open spec fn path_part_text(value: Seq<char>) -> Seq<char> {
    let safe = value.map_values(|c: char| file_safe(c));
    if safe.len() == 0 {
        "sample"@
    } else {
        safe
    }
}

/// Makes `value` safe to use as a path part.
pub fn sanitize_path_part(value: &str) -> (r: String)
    ensures
        r@ == path_part_text(value@),
{
    let safe = file_safe_chars(value);
    if safe.len() == 0 {
        string_of("sample")
    } else {
        string_from_chars(safe.as_slice())
    }
}

/// `s` without leading `_`.
pub open spec fn strip_leading_underscores(s: Seq<char>) -> Seq<char>
    decreases s.len(),
{
    if s.len() > 0 && s[0] == '_' {
        strip_leading_underscores(s.drop_first())
    } else {
        s
    }
}

/// `s` without trailing `_`.
pub open spec fn strip_trailing_underscores(s: Seq<char>) -> Seq<char>
    decreases s.len(),
{
    if s.len() > 0 && s.last() == '_' {
        strip_trailing_underscores(s.drop_last())
    } else {
        s
    }
}

/// A file-name part made safe: unsafe characters become `_`, `_` at both ends
/// is dropped, and at most 96 characters are kept.
pub open spec fn file_part_text(value: Seq<char>) -> Seq<char> {
    let core = strip_trailing_underscores(
        strip_leading_underscores(value.map_values(|c: char| file_safe(c))),
    );
    if core.len() <= 96 {
        core
    } else {
        core.take(96)
    }
}

/// Makes `value` safe to use as part of a file name.
pub fn sanitize_file_part(value: &str) -> (r: String)
    ensures
        r@ == file_part_text(value@),
{
    let safe = file_safe_chars(value);
    let n = safe.len();
    let mut a: usize = 0;
    assert(safe@.skip(0) =~= safe@);
    while a < n && safe[a] == '_'
        invariant
            a <= n,
            n == safe@.len(),
            strip_leading_underscores(safe@) == strip_leading_underscores(safe@.skip(a as int)),
        decreases n - a,
    {
        assert(safe@.skip(a as int).drop_first() =~= safe@.skip(a + 1));
        a = a + 1;
    }
    let ghost started = safe@.skip(a as int);
    let mut b: usize = n;
    assert(safe@.subrange(a as int, n as int) =~= started);
    while b > a && safe[b - 1] == '_'
        invariant
            a <= b <= n,
            n == safe@.len(),
            started == safe@.skip(a as int),
            strip_trailing_underscores(started) == strip_trailing_underscores(
                safe@.subrange(a as int, b as int),
            ),
        decreases b,
    {
        assert(safe@.subrange(a as int, b as int).drop_last() =~= safe@.subrange(a as int, b - 1));
        b = b - 1;
    }
    let ghost core = safe@.subrange(a as int, b as int);
    let end = if b - a <= 96 {
        b
    } else {
        a + 96
    };
    let mut out = String::new();
    let mut i = a;
    while i < end
        invariant
            a <= i <= end,
            end <= b,
            b <= n,
            n == safe@.len(),
            out@ == safe@.subrange(a as int, i as int),
        decreases end - i,
    {
        push_char(&mut out, safe[i]);
        i = i + 1;
        assert(out@ =~= safe@.subrange(a as int, i as int));
    }
    assert(out@ =~= file_part_text(value@));
    out
}

/// The HTML text of one character: `&`, `<`, `>`, `"` and `'` become entities.
pub open spec fn html_char_text(c: char) -> Seq<char> {
    if c == '&' {
        "&amp;"@
    } else if c == '<' {
        "&lt;"@
    } else if c == '>' {
        "&gt;"@
    } else if c == '"' {
        "&quot;"@
    } else if c == '\'' {
        "&#39;"@
    } else {
        seq![c]
    }
}

/// `s` with every character replaced by its HTML text.
pub open spec fn html_text(s: Seq<char>) -> Seq<char>
    decreases s.len(),
{
    if s.len() == 0 {
        Seq::empty()
    } else {
        html_text(s.drop_last()) + html_char_text(s.last())
    }
}

/// Escapes text for HTML.
pub fn escape_html(value: &str) -> (r: String)
    ensures
        r@ == html_text(value@),
{
    let cs = chars_of(value);
    let mut out = String::new();
    let mut i: usize = 0;
    while i < cs.len()
        invariant
            i <= cs@.len(),
            cs@ == value@,
            out@ == html_text(cs@.take(i as int)),
        decreases cs@.len() - i,
    {
        let c = cs[i];
        if c == '&' {
            out.append("&amp;");
        } else if c == '<' {
            out.append("&lt;");
        } else if c == '>' {
            out.append("&gt;");
        } else if c == '"' {
            out.append("&quot;");
        } else if c == '\'' {
            out.append("&#39;");
        } else {
            push_char(&mut out, c);
        }
        proof {
            assert(cs@.take(i + 1).drop_last() =~= cs@.take(i as int));
        }
        i = i + 1;
    }
    assert(cs@.take(i as int) =~= cs@);
    out
}

/// The same escaping as `escape_html`, under the name the patch reports use.
pub fn html_escape(value: &str) -> (r: String)
    ensures
        r@ == html_text(value@),
{
    escape_html(value)
}

/// Name of class `label`, or `class-<label>` past the known classes.
pub fn label_name(class_names: &[String], label: usize) -> (r: String)
    ensures
        label < class_names@.len() ==> r@ == class_names@[label as int]@,
        label >= class_names@.len() ==> r@ == "class-"@ + decimal_text(label as nat),
{
    if label < class_names.len() {
        class_names[label].clone()
    } else {
        let mut out = string_of("class-");
        push_decimal(&mut out, label as u64);
        out
    }
}


/// A note on the hardware the genetic search is meant for.
pub fn hardware_note() -> (r: String)
    ensures
        r@ == "CPU-parallel genetic search; use --threads 32 on the noted Intel i9-14900/32-thread workstation. The NVIDIA RTX 5090 is not used by this first CPU implementation."@,
{
    string_of(
        "CPU-parallel genetic search; use --threads 32 on the noted Intel i9-14900/32-thread workstation. The NVIDIA RTX 5090 is not used by this first CPU implementation.",
    )
}

/// `t` with `0`s in front up to `width` characters.
pub open spec fn zero_padded(t: Seq<char>, width: nat) -> Seq<char> {
    if t.len() < width {
        Seq::new((width - t.len()) as nat, |i: int| '0') + t
    } else {
        t
    }
}

/// The directory name of one debug sample: its position in four digits,
/// the expected and predicted labels and the image's file stem, made safe
/// as a file-name part.
pub open spec fn sample_dir_text(
    position: nat,
    expected: Seq<char>,
    predicted: Seq<char>,
    stem: Seq<char>,
) -> Seq<char> {
    file_part_text(
        zero_padded(decimal_text(position), 4) + "_expected_"@ + expected + "_predicted_"@
            + predicted + "_"@ + stem,
    )
}

/// The directory name of one debug sample, as `sample_dir_text` states.
pub fn sample_dir_name(position: usize, expected_label: &str, predicted_label: &str, stem: &str) -> (r:
    String)
    ensures
        r@ == sample_dir_text(position as nat, expected_label@, predicted_label@, stem@),
{
    let mut digits = String::new();
    push_decimal(&mut digits, position as u64);
    assert(digits@ =~= decimal_text(position as nat));
    let n = chars_of(digits.as_str()).len();
    let mut name = String::new();
    let mut k = n;
    while k < 4
        invariant
            n == decimal_text(position as nat).len(),
            n <= k <= 4 || (n > 4 && k == n),
            name@ == Seq::new((k - n) as nat, |i: int| '0'),
        decreases 4 - k,
    {
        push_char(&mut name, '0');
        k = k + 1;
        assert(name@ =~= Seq::new((k - n) as nat, |i: int| '0'));
    }
    name.append(digits.as_str());
    assert(name@ =~= zero_padded(decimal_text(position as nat), 4));
    name.append("_expected_");
    name.append(expected_label);
    name.append("_predicted_");
    name.append(predicted_label);
    name.append("_");
    name.append(stem);
    sanitize_file_part(name.as_str())
}

/// The image settings a model artifact records.
pub struct ImageArtifact {
    pub width: u32,
    pub height: u32,
    pub feature_mode: String,
    pub resize_mode: String,
}

impl ImageArtifact {
    /// The image settings of a run, as its artifact records them.
    pub fn from_settings(args: &Args) -> (r: Self)
        ensures
            r.width == args.image_width,
            r.height == args.image_height,
            r.feature_mode@ == args.image_features@,
            r.resize_mode@ == args.image_resize@,
    {
        ImageArtifact {
            width: args.image_width,
            height: args.image_height,
            feature_mode: args.image_features.clone(),
            resize_mode: args.image_resize.clone(),
        }
    }
}

} // verus!
