//! Names in a workspace folder: the file a new or renamed request gets, the
//! name of a copy, which entries are hidden or environments, and the check
//! that a name is free.
use crate::text::{
    append_str, chars_of, decimal, ends_with, ends_with_str, push_decimal, starts_with,
    starts_with_str, string_of, trim, trim_vec,
};
use vstd::prelude::*;

verus! {

/// The file a new request named `name` is created as: the trimmed name, with
/// `.json` added unless it has it.
pub open spec fn new_request_file(name: Seq<char>) -> Seq<char> {
    let t = trim(name);
    if ends_with(t, ".json"@) {
        t
    } else {
        t + ".json"@
    }
}

pub fn request_file_for(name: &str) -> (r: String)
    ensures
        r@ == new_request_file(name@),
{
    let t = trim_vec(&chars_of(name));
    if ends_with_str(&t, ".json") {
        string_of(&t)
    } else {
        let mut out = t;
        append_str(&mut out, ".json");
        string_of(&out)
    }
}

/// The name an entry is renamed to: the trimmed new name; a request file
/// keeps its `.json` so it stays in the tree.
pub open spec fn renamed(new_name: Seq<char>, is_json: bool) -> Seq<char> {
    let t = trim(new_name);
    if is_json && !ends_with(t, ".json"@) {
        t + ".json"@
    } else {
        t
    }
}

pub fn renamed_file_name(new_name: &str, is_json: bool) -> (r: String)
    ensures
        r@ == renamed(new_name@, is_json),
{
    let t = trim_vec(&chars_of(new_name));
    if is_json && !ends_with_str(&t, ".json") {
        let mut out = t;
        append_str(&mut out, ".json");
        string_of(&out)
    } else {
        string_of(&t)
    }
}

/// The name of the `n`-th copy of `stem.ext`.
pub open spec fn copy_name(stem: Seq<char>, ext: Seq<char>, n: nat) -> Seq<char> {
    stem + "_copy"@ + decimal(n) + "."@ + ext
}

pub fn copy_file_name(stem: &str, ext: &str, n: u64) -> (r: String)
    ensures
        r@ == copy_name(stem@, ext@, n as nat),
{
    let mut out = chars_of(stem);
    append_str(&mut out, "_copy");
    push_decimal(&mut out, n as u128);
    append_str(&mut out, ".");
    append_str(&mut out, ext);
    string_of(&out)
}

/// A new entry may only take a free name.
pub fn ensure_free(exists: bool, name: &str) -> (r: Result<(), String>)
    ensures
        r is Err <==> exists,
        r matches Err(e) ==> e@ == "'"@ + name@ + "' already exists"@,
{
    if exists {
        let mut out = chars_of("'");
        append_str(&mut out, name);
        append_str(&mut out, "' already exists");
        Err(string_of(&out))
    } else {
        Ok(())
    }
}

/// Entries whose name starts with a dot are not shown in the tree.
pub fn is_hidden(name: &str) -> (r: bool)
    ensures
        r == starts_with(name@, "."@),
{
    starts_with_str(&chars_of(name), ".")
}

/// Files of the workspace root whose name starts with `.env` are
/// environments.
pub fn is_env_file(name: &str) -> (r: bool)
    ensures
        r == starts_with(name@, ".env"@),
{
    starts_with_str(&chars_of(name), ".env")
}

} // verus!
