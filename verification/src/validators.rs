//! Input validation for values that are later handed to subprocess
//! command lines. Each check admits exactly one fixed character-class
//! shape, stated precisely in the corresponding `spec` function.

use vstd::prelude::*;
use crate::strutil::chars_of;
use crate::strutil::push_chars;

verus! {

#[derive(Debug)]
pub enum ValidationError {
    InvalidFlakeRef(String),
    ShellMetacharacters(String),
    InvalidNixExpr(String),
    InvalidAttrPath(String),
    InvalidCacheName(String),
    InvalidStorePath(String),
    InvalidStoreSubpath(String),
    InvalidPath(String),
}

pub open spec fn is_digit_char(c: char) -> bool {
    '0' <= c && c <= '9'
}

pub open spec fn is_lower_char(c: char) -> bool {
    'a' <= c && c <= 'z'
}

pub open spec fn is_upper_char(c: char) -> bool {
    'A' <= c && c <= 'Z'
}

pub open spec fn is_alnum_char(c: char) -> bool {
    is_digit_char(c) || is_lower_char(c) || is_upper_char(c)
}

/// Characters allowed in flake references and installables.
pub open spec fn is_flake_ref_char(c: char) -> bool {
    is_alnum_char(c) || c == '.' || c == '_' || c == '-' || c == '/' || c == ':' || c == '#'
        || c == '+'
}

/// Characters allowed in attribute paths.
pub open spec fn is_attr_path_char(c: char) -> bool {
    is_alnum_char(c) || c == '.' || c == '_' || c == '-'
}

/// Shell metacharacters that are never allowed in plain arguments.
pub open spec fn is_shell_metachar(c: char) -> bool {
    c == ';' || c == '&' || c == '|' || c == '`' || c == '$' || c == '(' || c == ')' || c == '{'
        || c == '}' || c == '\\' || c == '<' || c == '>' || c == '!'
}

/// Characters allowed in a cache name after the first.
pub open spec fn is_cache_name_char(c: char) -> bool {
    is_alnum_char(c) || c == '-'
}

/// Characters allowed in the hash part of a store path.
pub open spec fn is_store_hash_char(c: char) -> bool {
    is_lower_char(c) || is_digit_char(c)
}

/// Characters allowed in the name part of a store path.
pub open spec fn is_store_name_char(c: char) -> bool {
    is_alnum_char(c) || c == '.' || c == '_' || c == '-'
}

/// Characters allowed in ordinary file paths.
pub open spec fn is_path_char(c: char) -> bool {
    is_alnum_char(c) || c == '.' || c == '_' || c == '-' || c == '/' || c == '~'
}

pub open spec fn spec_valid_flake_ref(s: Seq<char>) -> bool {
    s.len() > 0 && forall|i: int| 0 <= i < s.len() ==> is_flake_ref_char(#[trigger] s[i])
}

pub open spec fn spec_valid_attr_path(s: Seq<char>) -> bool {
    s.len() > 0 && forall|i: int| 0 <= i < s.len() ==> is_attr_path_char(#[trigger] s[i])
}

pub open spec fn spec_has_shell_metachar(s: Seq<char>) -> bool {
    exists|i: int| 0 <= i < s.len() && is_shell_metachar(#[trigger] s[i])
}

pub open spec fn spec_valid_cache_name(s: Seq<char>) -> bool {
    s.len() > 0 && is_alnum_char(s[0]) && forall|i: int|
        0 <= i < s.len() ==> is_cache_name_char(#[trigger] s[i])
}

/// A store path: `/nix/store/`, a 32-character hash, `-`, and a name.
pub open spec fn spec_valid_store_path(s: Seq<char>) -> bool {
    &&& s.len() >= 45
    &&& s.subrange(0, 11) == "/nix/store/"@
    &&& (forall|i: int| 11 <= i < 43 ==> is_store_hash_char(#[trigger] s[i]))
    &&& s[43] == '-'
    &&& (forall|i: int| 44 <= i < s.len() ==> is_store_name_char(#[trigger] s[i]))
}

/// A store path optionally followed by `/`-separated non-empty segments
/// of name characters.
pub open spec fn spec_valid_store_subpath_shape(s: Seq<char>) -> bool {
    &&& s.len() >= 45
    &&& s.subrange(0, 11) == "/nix/store/"@
    &&& (forall|i: int| 11 <= i < 43 ==> is_store_hash_char(#[trigger] s[i]))
    &&& s[43] == '-'
    &&& s[44] != '/'
    &&& s[s.len() - 1] != '/'
    &&& (forall|i: int| 44 <= i < s.len() ==> is_store_name_char(#[trigger] s[i]) || s[i] == '/')
    &&& (forall|i: int| 44 <= i < s.len() - 1 ==> !(#[trigger] s[i] == '/' && s[i + 1] == '/'))
}

/// A `.` or `..` path component starts at position `i`.
pub open spec fn dot_component_at(s: Seq<char>, i: int) -> bool {
    &&& 0 <= i < s.len()
    &&& s[i] == '.'
    &&& (i == 0 || s[i - 1] == '/')
    &&& (i + 1 == s.len() || s[i + 1] == '/' || (s[i + 1] == '.' && (i + 2 == s.len() || s[i + 2]
        == '/')))
}

pub open spec fn spec_no_dot_components(s: Seq<char>) -> bool {
    forall|i: int| !#[trigger] dot_component_at(s, i)
}

pub open spec fn spec_valid_store_subpath(s: Seq<char>) -> bool {
    spec_valid_store_subpath_shape(s) && spec_no_dot_components(s)
}

pub open spec fn spec_valid_path(s: Seq<char>) -> bool {
    s.len() > 0 && forall|i: int| 0 <= i < s.len() ==> is_path_char(#[trigger] s[i])
}

pub open spec fn spec_valid_nix_expr(s: Seq<char>) -> bool {
    forall|i: int| 0 <= i < s.len() ==> #[trigger] s[i] != '\0'
}

fn flake_ref_char(c: char) -> (r: bool)
    ensures
        r == is_flake_ref_char(c),
{
    ('a' <= c && c <= 'z') || ('A' <= c && c <= 'Z') || ('0' <= c && c <= '9') || c == '.' || c
        == '_' || c == '-' || c == '/' || c == ':' || c == '#' || c == '+'
}

fn attr_path_char(c: char) -> (r: bool)
    ensures
        r == is_attr_path_char(c),
{
    ('a' <= c && c <= 'z') || ('A' <= c && c <= 'Z') || ('0' <= c && c <= '9') || c == '.' || c
        == '_' || c == '-'
}

fn shell_metachar(c: char) -> (r: bool)
    ensures
        r == is_shell_metachar(c),
{
    c == ';' || c == '&' || c == '|' || c == '`' || c == '$' || c == '(' || c == ')' || c == '{'
        || c == '}' || c == '\\' || c == '<' || c == '>' || c == '!'
}

fn alnum_char(c: char) -> (r: bool)
    ensures
        r == is_alnum_char(c),
{
    ('a' <= c && c <= 'z') || ('A' <= c && c <= 'Z') || ('0' <= c && c <= '9')
}

fn store_hash_char(c: char) -> (r: bool)
    ensures
        r == is_store_hash_char(c),
{
    ('a' <= c && c <= 'z') || ('0' <= c && c <= '9')
}

fn store_name_char(c: char) -> (r: bool)
    ensures
        r == is_store_name_char(c),
{
    ('a' <= c && c <= 'z') || ('A' <= c && c <= 'Z') || ('0' <= c && c <= '9') || c == '.' || c
        == '_' || c == '-'
}

fn path_char(c: char) -> (r: bool)
    ensures
        r == is_path_char(c),
{
    ('a' <= c && c <= 'z') || ('A' <= c && c <= 'Z') || ('0' <= c && c <= '9') || c == '.' || c
        == '_' || c == '-' || c == '/' || c == '~'
}

/// True when `s` starts with the store prefix `/nix/store/`.
fn has_store_prefix(s: &Vec<char>) -> (r: bool)
    ensures
        r == (s@.len() >= 11 && s@.subrange(0, 11) == "/nix/store/"@),
{
    proof {
        reveal_strlit("/nix/store/");
    }
    if s.len() < 11 {
        return false;
    }
    let ok = s[0] == '/' && s[1] == 'n' && s[2] == 'i' && s[3] == 'x' && s[4] == '/' && s[5] == 's'
        && s[6] == 't' && s[7] == 'o' && s[8] == 'r' && s[9] == 'e' && s[10] == '/';
    proof {
        if ok {
            assert(s@.subrange(0, 11) =~= "/nix/store/"@);
        } else {
            assert(s@.subrange(0, 11) != "/nix/store/"@) by {
                if s@.subrange(0, 11) == "/nix/store/"@ {
                    assert(s@.subrange(0, 11)[0] == '/');
                    assert(s@.subrange(0, 11)[1] == 'n');
                    assert(s@.subrange(0, 11)[2] == 'i');
                    assert(s@.subrange(0, 11)[3] == 'x');
                    assert(s@.subrange(0, 11)[4] == '/');
                    assert(s@.subrange(0, 11)[5] == 's');
                    assert(s@.subrange(0, 11)[6] == 't');
                    assert(s@.subrange(0, 11)[7] == 'o');
                    assert(s@.subrange(0, 11)[8] == 'r');
                    assert(s@.subrange(0, 11)[9] == 'e');
                    assert(s@.subrange(0, 11)[10] == '/');
                }
            }
        }
    }
    ok
}

pub fn validate_installable<'a>(installable: &'a str) -> (r: Result<&'a str, ValidationError>)
    ensures
        r is Ok <==> spec_valid_flake_ref(installable@),
        r matches Ok(v) ==> v@ == installable@,
        r matches Err(e) ==> e matches ValidationError::InvalidFlakeRef(m) && m@ == installable@,
{
    validate_flake_ref(installable)
}

pub fn validate_flake_ref<'a>(flake_ref: &'a str) -> (r: Result<&'a str, ValidationError>)
    ensures
        r is Ok <==> spec_valid_flake_ref(flake_ref@),
        r matches Ok(v) ==> v@ == flake_ref@,
        r matches Err(e) ==> e matches ValidationError::InvalidFlakeRef(m) && m@ == flake_ref@,
{
    let cs = chars_of(flake_ref);
    if cs.len() == 0 {
        return Err(ValidationError::InvalidFlakeRef(flake_ref.to_owned()));
    }
    let mut i: usize = 0;
    while i < cs.len()
        invariant
            cs@ == flake_ref@,
            i <= cs@.len(),
            forall|j: int| 0 <= j < i ==> is_flake_ref_char(#[trigger] cs@[j]),
        decreases cs@.len() - i,
    {
        if !flake_ref_char(cs[i]) {
            return Err(ValidationError::InvalidFlakeRef(flake_ref.to_owned()));
        }
        i = i + 1;
    }
    Ok(flake_ref)
}

pub fn validate_attr_path<'a>(attr_path: &'a str) -> (r: Result<&'a str, ValidationError>)
    ensures
        r is Ok <==> spec_valid_attr_path(attr_path@),
        r matches Ok(v) ==> v@ == attr_path@,
        r matches Err(e) ==> e matches ValidationError::InvalidAttrPath(m) && m@ == attr_path@,
{
    let cs = chars_of(attr_path);
    if cs.len() == 0 {
        return Err(ValidationError::InvalidAttrPath(attr_path.to_owned()));
    }
    let mut i: usize = 0;
    while i < cs.len()
        invariant
            cs@ == attr_path@,
            i <= cs@.len(),
            forall|j: int| 0 <= j < i ==> is_attr_path_char(#[trigger] cs@[j]),
        decreases cs@.len() - i,
    {
        if !attr_path_char(cs[i]) {
            return Err(ValidationError::InvalidAttrPath(attr_path.to_owned()));
        }
        i = i + 1;
    }
    Ok(attr_path)
}

pub fn validate_no_shell_metacharacters<'a>(input: &'a str) -> (r: Result<
    &'a str,
    ValidationError,
>)
    ensures
        r is Ok <==> !spec_has_shell_metachar(input@),
        r matches Ok(v) ==> v@ == input@,
        r matches Err(e) ==> e matches ValidationError::ShellMetacharacters(m) && m@ == input@,
{
    let cs = chars_of(input);
    let mut i: usize = 0;
    while i < cs.len()
        invariant
            cs@ == input@,
            i <= cs@.len(),
            forall|j: int| 0 <= j < i ==> !is_shell_metachar(#[trigger] cs@[j]),
        decreases cs@.len() - i,
    {
        if shell_metachar(cs[i]) {
            return Err(ValidationError::ShellMetacharacters(input.to_owned()));
        }
        i = i + 1;
    }
    Ok(input)
}

pub fn validate_args(args: &[String]) -> (r: Result<(), ValidationError>)
    ensures
        r is Ok <==> forall|k: int|
            0 <= k < args@.len() ==> !spec_has_shell_metachar(#[trigger] args@[k]@),
{
    let mut k: usize = 0;
    while k < args.len()
        invariant
            k <= args@.len(),
            forall|j: int| 0 <= j < k ==> !spec_has_shell_metachar(#[trigger] args@[j]@),
        decreases args@.len() - k,
    {
        let a: &String = &args[k];
        if validate_no_shell_metacharacters(a.as_str()).is_err() {
            return Err(ValidationError::ShellMetacharacters(a.clone()));
        }
        k = k + 1;
    }
    Ok(())
}

/// Commands are spawned directly, never through a shell, so Nix syntax
/// characters are harmless; only null bytes cannot cross an argv boundary.
pub fn validate_nix_expr<'a>(input: &'a str) -> (r: Result<&'a str, ValidationError>)
    ensures
        r is Ok <==> spec_valid_nix_expr(input@),
        r matches Ok(v) ==> v@ == input@,
        r matches Err(e) ==> e matches ValidationError::InvalidNixExpr(m) && m@ == input@,
{
    let cs = chars_of(input);
    let mut i: usize = 0;
    while i < cs.len()
        invariant
            cs@ == input@,
            i <= cs@.len(),
            forall|j: int| 0 <= j < i ==> #[trigger] cs@[j] != '\0',
        decreases cs@.len() - i,
    {
        if cs[i] == '\0' {
            return Err(ValidationError::InvalidNixExpr(input.to_owned()));
        }
        i = i + 1;
    }
    Ok(input)
}

pub fn validate_cache_name<'a>(name: &'a str) -> (r: Result<&'a str, ValidationError>)
    ensures
        r is Ok <==> spec_valid_cache_name(name@),
        r matches Ok(v) ==> v@ == name@,
        r matches Err(e) ==> e matches ValidationError::InvalidCacheName(m) && m@ == name@,
{
    let cs = chars_of(name);
    if cs.len() == 0 {
        return Err(ValidationError::InvalidCacheName(name.to_owned()));
    }
    if !alnum_char(cs[0]) {
        return Err(ValidationError::InvalidCacheName(name.to_owned()));
    }
    let mut i: usize = 0;
    while i < cs.len()
        invariant
            cs@ == name@,
            i <= cs@.len(),
            forall|j: int| 0 <= j < i ==> is_cache_name_char(#[trigger] cs@[j]),
        decreases cs@.len() - i,
    {
        if !(alnum_char(cs[i]) || cs[i] == '-') {
            return Err(ValidationError::InvalidCacheName(name.to_owned()));
        }
        i = i + 1;
    }
    Ok(name)
}

fn store_path_shape(cs: &Vec<char>) -> (r: bool)
    ensures
        r == spec_valid_store_path(cs@),
{
    if cs.len() < 45 {
        return false;
    }
    if !has_store_prefix(cs) {
        return false;
    }
    let mut i: usize = 11;
    while i < 43
        invariant
            cs@.len() >= 45,
            11 <= i <= 43,
            forall|j: int| 11 <= j < i ==> is_store_hash_char(#[trigger] cs@[j]),
        decreases 43 - i,
    {
        if !store_hash_char(cs[i]) {
            return false;
        }
        i = i + 1;
    }
    if cs[43] != '-' {
        return false;
    }
    let mut k: usize = 44;
    while k < cs.len()
        invariant
            cs@.len() >= 45,
            44 <= k <= cs@.len(),
            forall|j: int| 44 <= j < k ==> is_store_name_char(#[trigger] cs@[j]),
        decreases cs@.len() - k,
    {
        if !store_name_char(cs[k]) {
            return false;
        }
        k = k + 1;
    }
    true
}

pub fn validate_store_path<'a>(path: &'a str) -> (r: Result<&'a str, ValidationError>)
    ensures
        r is Ok <==> spec_valid_store_path(path@),
        r matches Ok(v) ==> v@ == path@,
        r matches Err(e) ==> e matches ValidationError::InvalidStorePath(m) && m@ == path@,
{
    let cs = chars_of(path);
    if store_path_shape(&cs) {
        Ok(path)
    } else {
        Err(ValidationError::InvalidStorePath(path.to_owned()))
    }
}

fn store_subpath_shape(cs: &Vec<char>) -> (r: bool)
    ensures
        r == spec_valid_store_subpath_shape(cs@),
{
    if cs.len() < 45 {
        return false;
    }
    if !has_store_prefix(cs) {
        return false;
    }
    let mut i: usize = 11;
    while i < 43
        invariant
            cs@.len() >= 45,
            11 <= i <= 43,
            forall|j: int| 11 <= j < i ==> is_store_hash_char(#[trigger] cs@[j]),
        decreases 43 - i,
    {
        if !store_hash_char(cs[i]) {
            return false;
        }
        i = i + 1;
    }
    if cs[43] != '-' {
        return false;
    }
    if cs[44] == '/' {
        return false;
    }
    if cs[cs.len() - 1] == '/' {
        return false;
    }
    let mut k: usize = 44;
    while k < cs.len()
        invariant
            cs@.len() >= 45,
            44 <= k <= cs@.len(),
            forall|j: int| 44 <= j < k ==> is_store_name_char(#[trigger] cs@[j]) || cs@[j] == '/',
            forall|j: int| 44 <= j < k - 1 ==> !(#[trigger] cs@[j] == '/' && cs@[j + 1] == '/'),
        decreases cs@.len() - k,
    {
        if !(store_name_char(cs[k]) || cs[k] == '/') {
            return false;
        }
        if k > 44 && cs[k - 1] == '/' && cs[k] == '/' {
            return false;
        }
        k = k + 1;
    }
    true
}

fn no_dot_components(cs: &Vec<char>) -> (r: bool)
    ensures
        r == spec_no_dot_components(cs@),
{
    let n = cs.len();
    let mut i: usize = 0;
    while i < n
        invariant
            n == cs@.len(),
            i <= n,
            forall|j: int| 0 <= j < i ==> !dot_component_at(cs@, j),
        decreases n - i,
    {
        if cs[i] == '.' && (i == 0 || cs[i - 1] == '/') {
            if i + 1 == n || cs[i + 1] == '/' {
                proof {
                    assert(dot_component_at(cs@, i as int));
                }
                return false;
            }
            if cs[i + 1] == '.' && (i + 2 == n || cs[i + 2] == '/') {
                proof {
                    assert(dot_component_at(cs@, i as int));
                }
                return false;
            }
        }
        i = i + 1;
    }
    proof {
        assert forall|j: int| !dot_component_at(cs@, j) by {
            if 0 <= j < n {
            }
        }
    }
    true
}

pub fn validate_store_subpath<'a>(path: &'a str) -> (r: Result<&'a str, ValidationError>)
    ensures
        r is Ok <==> spec_valid_store_subpath(path@),
        r matches Ok(v) ==> v@ == path@,
        r matches Err(e) ==> e matches ValidationError::InvalidStoreSubpath(m) && m@ == path@,
{
    let cs = chars_of(path);
    if !store_subpath_shape(&cs) {
        return Err(ValidationError::InvalidStoreSubpath(path.to_owned()));
    }
    if !no_dot_components(&cs) {
        return Err(ValidationError::InvalidStoreSubpath(path.to_owned()));
    }
    Ok(path)
}

pub fn validate_store_paths(paths: &[String]) -> (r: Result<(), ValidationError>)
    ensures
        r is Ok <==> forall|k: int|
            0 <= k < paths@.len() ==> spec_valid_store_path(#[trigger] paths@[k]@),
{
    let mut k: usize = 0;
    while k < paths.len()
        invariant
            k <= paths@.len(),
            forall|j: int| 0 <= j < k ==> spec_valid_store_path(#[trigger] paths@[j]@),
        decreases paths@.len() - k,
    {
        let p: &String = &paths[k];
        if validate_store_path(p.as_str()).is_err() {
            return Err(ValidationError::InvalidStorePath(p.clone()));
        }
        k = k + 1;
    }
    Ok(())
}

pub fn validate_path<'a>(path: &'a str) -> (r: Result<&'a str, ValidationError>)
    ensures
        r is Ok <==> spec_valid_path(path@),
        r matches Ok(v) ==> v@ == path@,
        r matches Err(e) ==> e matches ValidationError::InvalidPath(m) && m@ == path@,
{
    let cs = chars_of(path);
    if cs.len() == 0 {
        return Err(ValidationError::InvalidPath(path.to_owned()));
    }
    let mut i: usize = 0;
    while i < cs.len()
        invariant
            cs@ == path@,
            i <= cs@.len(),
            forall|j: int| 0 <= j < i ==> is_path_char(#[trigger] cs@[j]),
        decreases cs@.len() - i,
    {
        if !path_char(cs[i]) {
            return Err(ValidationError::InvalidPath(path.to_owned()));
        }
        i = i + 1;
    }
    Ok(path)
}

impl ValidationError {
    /// The text the error describes itself with.
    pub fn message(&self) -> (r: String)
        ensures
            match self {
                ValidationError::InvalidFlakeRef(m) => r@ == "invalid flake reference: `"@ + m@
                    + "`"@,
                ValidationError::ShellMetacharacters(m) => r@
                    == "shell metacharacters not allowed: `"@ + m@ + "`"@,
                ValidationError::InvalidNixExpr(m) => r@
                    == "nix expression contains invalid characters (null bytes): `"@ + m@ + "`"@,
                ValidationError::InvalidAttrPath(m) => r@ == "invalid attribute path: `"@ + m@
                    + "`"@,
                ValidationError::InvalidCacheName(m) => r@ == "invalid cache name: `"@ + m@ + "`"@,
                ValidationError::InvalidStorePath(m) => r@ == "invalid store path: `"@ + m@ + "`"@,
                ValidationError::InvalidStoreSubpath(m) => r@ == "invalid store subpath: `"@ + m@
                    + "`"@,
                ValidationError::InvalidPath(m) => r@ == "invalid path: `"@ + m@ + "`"@,
            },
{
        let mut s = String::new();
        match self {
            ValidationError::InvalidFlakeRef(m) => {
                push_chars(&mut s, "invalid flake reference: `");
                push_chars(&mut s, m.as_str());
                push_chars(&mut s, "`");
            },
            ValidationError::ShellMetacharacters(m) => {
                push_chars(&mut s, "shell metacharacters not allowed: `");
                push_chars(&mut s, m.as_str());
                push_chars(&mut s, "`");
            },
            ValidationError::InvalidNixExpr(m) => {
                push_chars(&mut s, "nix expression contains invalid characters (null bytes): `");
                push_chars(&mut s, m.as_str());
                push_chars(&mut s, "`");
            },
            ValidationError::InvalidAttrPath(m) => {
                push_chars(&mut s, "invalid attribute path: `");
                push_chars(&mut s, m.as_str());
                push_chars(&mut s, "`");
            },
            ValidationError::InvalidCacheName(m) => {
                push_chars(&mut s, "invalid cache name: `");
                push_chars(&mut s, m.as_str());
                push_chars(&mut s, "`");
            },
            ValidationError::InvalidStorePath(m) => {
                push_chars(&mut s, "invalid store path: `");
                push_chars(&mut s, m.as_str());
                push_chars(&mut s, "`");
            },
            ValidationError::InvalidStoreSubpath(m) => {
                push_chars(&mut s, "invalid store subpath: `");
                push_chars(&mut s, m.as_str());
                push_chars(&mut s, "`");
            },
            ValidationError::InvalidPath(m) => {
                push_chars(&mut s, "invalid path: `");
                push_chars(&mut s, m.as_str());
                push_chars(&mut s, "`");
            },
        }
        s
    }
}

} // verus!
