//! The suffix predicates that decide which files each stage handles.
use vstd::prelude::*;
use crate::text::{chars_of, ends_with, ends_with_chars};

verus! {

/// Whether the path names a JSON-like file (`.json` or `.mcmeta`).
pub open spec fn json_like(p: Seq<char>) -> bool {
    ends_with(p, ".json"@) || ends_with(p, ".mcmeta"@)
}

/// Whether the path names a YAML-like file (`.yml` or `.yaml`).
pub open spec fn yaml_like(p: Seq<char>) -> bool {
    ends_with(p, ".yml"@) || ends_with(p, ".yaml"@)
}

/// Whether the path names a shader source (`.vsh` or `.fsh`).
pub open spec fn shader_like(p: Seq<char>) -> bool {
    ends_with(p, ".vsh"@) || ends_with(p, ".fsh"@)
}

/// Whether the path names a PNG image.
pub open spec fn png_like(p: Seq<char>) -> bool {
    ends_with(p, ".png"@)
}

/// Whether the clone stage keeps the path: documentation (`.md`) and backup
/// (`.old`) files are left behind.
pub open spec fn kept_by_clone(p: Seq<char>) -> bool {
    !ends_with(p, ".md"@) && !ends_with(p, ".old"@)
}

fn has_suffix(p: &Vec<char>, suffix: &str) -> (r: bool)
    ensures
        r == ends_with(p@, suffix@),
{
    let s = chars_of(suffix);
    ends_with_chars(p, &s)
}

/// Whether `path` names a JSON-like file.
pub fn is_json_like(path: &str) -> (r: bool)
    ensures
        r == json_like(path@),
{
    let p = chars_of(path);
    has_suffix(&p, ".json") || has_suffix(&p, ".mcmeta")
}

/// Whether `path` names a YAML-like file.
pub fn is_yaml_like(path: &str) -> (r: bool)
    ensures
        r == yaml_like(path@),
{
    let p = chars_of(path);
    has_suffix(&p, ".yml") || has_suffix(&p, ".yaml")
}

/// Whether `path` names a shader source.
pub fn is_shader_like(path: &str) -> (r: bool)
    ensures
        r == shader_like(path@),
{
    let p = chars_of(path);
    has_suffix(&p, ".vsh") || has_suffix(&p, ".fsh")
}

/// Whether `path` names a PNG image.
pub fn is_png_like(path: &str) -> (r: bool)
    ensures
        r == png_like(path@),
{
    let p = chars_of(path);
    has_suffix(&p, ".png")
}

/// Whether the clone stage keeps `path`.
pub fn is_kept_by_clone(path: &str) -> (r: bool)
    ensures
        r == kept_by_clone(path@),
{
    let p = chars_of(path);
    !has_suffix(&p, ".md") && !has_suffix(&p, ".old")
}

} // verus!
