//! File names and paths derived from recordings and detected inputs.
use crate::text::append_char;
use std::path::PathBuf;
use vstd::prelude::*;
use vstd::string::StringExecFns;

verus! {

/// Why a path could not be derived.
#[derive(Debug, Clone, Copy, PartialEq, Eq, Structural)]
pub enum PathError {
    /// The input path has no parent directory.
    NoParent,
    /// The input path has no file name.
    NoFileName,
}

/// Characters that cannot stand in a file name: `< > : " / \ | ? *` and the
/// ASCII control characters.
pub open spec fn illegal_filename_char(c: char) -> bool {
    c == '<' || c == '>' || c == ':' || c == '"' || c == '/' || c == '\\' || c == '|' || c == '?'
        || c == '*' || (c as u32) < 0x20 || (c as u32) == 0x7f
}

/// `s` with every illegal character replaced by a hyphen.
pub open spec fn sanitized(s: Seq<char>) -> Seq<char> {
    s.map_values(|c: char| if illegal_filename_char(c) { '-' } else { c })
}

pub fn is_illegal_filename_char(ch: char) -> (r: bool)
    ensures
        r == illegal_filename_char(ch),
{
    ch == '<' || ch == '>' || ch == ':' || ch == '"' || ch == '/' || ch == '\\' || ch == '|'
        || ch == '?' || ch == '*' || (ch as u32) < 0x20 || (ch as u32) == 0x7f
}

/// Replaces every character that cannot stand in a file name by a hyphen.
pub fn sanitize_filename_component(input: &str) -> (r: String)
    ensures
        r@ == sanitized(input@),
{
    let n = input.unicode_len();
    let mut out = String::new();
    let mut i: usize = 0;
    while i < n
        invariant
            n == input@.len(),
            i <= n,
            out@ == sanitized(input@.subrange(0, i as int)),
        decreases n - i,
    {
        let c = input.get_char(i);
        let d = if is_illegal_filename_char(c) {
            '-'
        } else {
            c
        };
        append_char(&mut out, d);
        assert(out@ =~= sanitized(input@.subrange(0, i as int + 1)));
        i = i + 1;
    }
    assert(input@.subrange(0, n as int) =~= input@);
    out
}

/// The file name of a transcript for an input whose stem is `stem`: the
/// sanitized stem with the `.md` extension.
pub fn transcript_file_name(stem: &str) -> (r: String)
    ensures
        r@ == sanitized(stem@) + ".md"@,
{
    let mut name = sanitize_filename_component(stem);
    name.append(".md");
    name
}

/// The names of the audio and transcript files of a recording stamped `stamp`.
pub fn recording_file_names(stamp: &str) -> (r: (String, String))
    ensures
        r.0@ == stamp@ + ".m4a"@,
        r.1@ == stamp@ + ".md"@,
{
    let mut audio = stamp.to_owned();
    audio.append(".m4a");
    let mut text = stamp.to_owned();
    text.append(".md");
    (audio, text)
}

/// The stem of a path's file name, read lossily as text.
pub uninterp spec fn file_stem_of(p: PathBuf) -> Option<Seq<char>>;

/// A path's file name, read lossily as text.
pub uninterp spec fn file_name_of(p: PathBuf) -> Option<Seq<char>>;

/// A path's parent directory.
pub uninterp spec fn parent_of(p: PathBuf) -> Option<PathBuf>;

/// `dir` joined with the relative name `name`.
pub uninterp spec fn joined(dir: PathBuf, name: Seq<char>) -> PathBuf;

/// Relies on `Path::file_stem`, read lossily as text: the result depends on
/// the path alone.
#[verifier::external_body]
fn file_stem_text(p: &PathBuf) -> (r: Option<String>)
    ensures
        match r {
            Some(s) => file_stem_of(*p) == Some(s@),
            None => file_stem_of(*p) is None,
        },
{
    p.file_stem().map(|s| s.to_string_lossy().into_owned())
}

/// Relies on `Path::file_name`, read lossily as text: the result depends on
/// the path alone.
#[verifier::external_body]
fn file_name_text(p: &PathBuf) -> (r: Option<String>)
    ensures
        match r {
            Some(s) => file_name_of(*p) == Some(s@),
            None => file_name_of(*p) is None,
        },
{
    p.file_name().map(|s| s.to_string_lossy().into_owned())
}

/// Relies on `Path::parent`: the result depends on the path alone.
#[verifier::external_body]
fn parent_dir(p: &PathBuf) -> (r: Option<PathBuf>)
    ensures
        r == parent_of(*p),
{
    p.parent().map(|d| d.to_path_buf())
}

/// Relies on `Path::join`: the result depends on its arguments alone.
#[verifier::external_body]
fn join_name(dir: &PathBuf, name: &str) -> (r: PathBuf)
    ensures
        r == joined(*dir, name@),
{
    dir.join(name)
}

/// The paths of the audio and transcript files of a new recording stamped
/// `stamp`, in `recordings_dir`.
pub fn next_recording_paths(recordings_dir: &PathBuf, stamp: &str) -> (r: (PathBuf, PathBuf))
    ensures
        r.0 == joined(*recordings_dir, stamp@ + ".m4a"@),
        r.1 == joined(*recordings_dir, stamp@ + ".md"@),
{
    let (audio, text) = recording_file_names(stamp);
    (join_name(recordings_dir, audio.as_str()), join_name(recordings_dir, text.as_str()))
}

/// The transcript beside `input`: same directory, same stem, `.md`.
pub fn transcript_path_for_input(input: &PathBuf) -> (r: Result<PathBuf, PathError>)
    ensures
        match parent_of(*input) {
            None => r == Err::<PathBuf, PathError>(PathError::NoParent),
            Some(dir) => match file_stem_of(*input) {
                None => r == Err::<PathBuf, PathError>(PathError::NoFileName),
                Some(stem) => r == Ok::<PathBuf, PathError>(joined(dir, stem + ".md"@)),
            },
        },
{
    let parent = match parent_dir(input) {
        Some(p) => p,
        None => return Err(PathError::NoParent),
    };
    let stem = match file_stem_text(input) {
        Some(s) => s,
        None => return Err(PathError::NoFileName),
    };
    let mut name = stem;
    name.append(".md");
    Ok(join_name(&parent, name.as_str()))
}

/// The transcript of `input` in `output_dir`, named after its sanitized stem.
pub fn transcript_path_for_output_dir(input: &PathBuf, output_dir: &PathBuf) -> (r: Result<PathBuf, PathError>)
    ensures
        match file_stem_of(*input) {
            None => r == Err::<PathBuf, PathError>(PathError::NoFileName),
            Some(stem) => r == Ok::<PathBuf, PathError>(joined(*output_dir, sanitized(stem) + ".md"@)),
        },
{
    let stem = match file_stem_text(input) {
        Some(s) => s,
        None => return Err(PathError::NoFileName),
    };
    let name = transcript_file_name(stem.as_str());
    Ok(join_name(output_dir, name.as_str()))
}

/// Where `input` goes once processed: `processed_dir`, under its sanitized
/// file name.
pub fn processed_path_for_input(input: &PathBuf, processed_dir: &PathBuf) -> (r: Result<PathBuf, PathError>)
    ensures
        match file_name_of(*input) {
            None => r == Err::<PathBuf, PathError>(PathError::NoFileName),
            Some(name) => r == Ok::<PathBuf, PathError>(joined(*processed_dir, sanitized(name))),
        },
{
    let name = match file_name_text(input) {
        Some(s) => s,
        None => return Err(PathError::NoFileName),
    };
    let safe = sanitize_filename_component(name.as_str());
    Ok(join_name(processed_dir, safe.as_str()))
}

} // verus!
