//! The command line: input method, paths, grid sizes and output format.

use vstd::prelude::*;

use crate::decimal::{decimal, decimal_chars, read_usize, usize_text_value};
use vstd::string::StringExecFns;
use crate::text::{chars_of, same_chars, string_from_chars};

verus! {

/// How the surface is obtained: from a control net given directly, or by
/// interpolating a grid of data points.
#[derive(Debug, Clone, Copy, PartialEq, Eq, Structural)]
pub enum InputMethod {
    Direct,
    Interpolated,
}

/// The kind of file that is written.
#[derive(Debug, Clone, Copy, PartialEq, Eq, Structural)]
pub enum OutputFormat {
    Vtk,
    Png,
}

/// The command line, read: paths are kept as text.
pub struct CliArgs {
    pub method: Option<InputMethod>,
    pub input_path: String,
    pub output_path: Option<String>,
    pub mesh_u: usize,
    pub mesh_v: usize,
}

/// A command line that cannot be read.
pub enum CliError {
    /// The first argument names no input method.
    UnknownMethod(String),
    /// A grid size argument is not a `usize`; `name` is the argument's name.
    InvalidNumber { name: String, text: String },
}

/// `c` with ASCII upper-case letters mapped to lower case, as
/// `to_ascii_lowercase` does; every other character is unchanged.
pub open spec fn ascii_lower(c: char) -> char {
    if 'A' <= c <= 'Z' {
        ((c as u32) + 32) as char
    } else {
        c
    }
}

pub open spec fn ascii_lowercase(s: Seq<char>) -> Seq<char> {
    s.map_values(|c: char| ascii_lower(c))
}

/// The output format that an extension selects, ignoring ASCII case:
/// `vtk` or `png`, and nothing for any other extension.
pub open spec fn format_of_extension(ext: Seq<char>) -> Option<OutputFormat> {
    if ascii_lowercase(ext) == seq!['v', 't', 'k'] {
        Some(OutputFormat::Vtk)
    } else if ascii_lowercase(ext) == seq!['p', 'n', 'g'] {
        Some(OutputFormat::Png)
    } else {
        None
    }
}

fn ascii_lower_char(c: char) -> (r: char)
    ensures
        r == ascii_lower(c),
{
    if 'A' <= c && c <= 'Z' {
        ((c as u8) + 32) as char
    } else {
        c
    }
}

fn ascii_lowercase_chars(s: &Vec<char>) -> (r: Vec<char>)
    ensures
        r@ == ascii_lowercase(s@),
{
    let mut r: Vec<char> = Vec::new();
    let mut i: usize = 0;
    while i < s.len()
        invariant
            i <= s@.len(),
            r@ == ascii_lowercase(s@.take(i as int)),
        decreases s@.len() - i,
    {
        let c = ascii_lower_char(s[i]);
        r.push(c);
        assert(ascii_lowercase(s@.take(i + 1)) =~= ascii_lowercase(s@.take(i as int)).push(c));
        i = i + 1;
    }
    assert(s@.take(s@.len() as int) =~= s@);
    r
}

/// The output format for a file extension (see `format_of_extension`).
pub fn format_for_extension(ext: &str) -> (r: Option<OutputFormat>)
    ensures
        r == format_of_extension(ext@),
{
    let lower = ascii_lowercase_chars(&chars_of(ext));
    let vtk: Vec<char> = vec!['v', 't', 'k'];
    let png: Vec<char> = vec!['p', 'n', 'g'];
    if same_chars(&lower, &vtk) {
        Some(OutputFormat::Vtk)
    } else if same_chars(&lower, &png) {
        Some(OutputFormat::Png)
    } else {
        None
    }
}

/// Index of the last `c` in `p[..hi]`, or -1 when there is none.
pub open spec fn last_index_of(p: Seq<char>, c: char, hi: int) -> int
    decreases hi,
{
    if hi <= 0 {
        -1
    } else if p[hi - 1] == c {
        hi - 1
    } else {
        last_index_of(p, c, hi - 1)
    }
}

/// The text after the last `/` of a path (all of it without a `/`).
pub open spec fn final_segment(p: Seq<char>) -> Seq<char> {
    p.subrange(last_index_of(p, '/', p.len() as int) + 1, p.len() as int)
}

/// A path without its trailing separators and trailing `.` components:
/// `out.vtk/` and `a/b.vtk/.` become `out.vtk` and `a/b.vtk`. Path parsing
/// ignores both on every platform, so they do not change the file name.
pub open spec fn strip_trailing(p: Seq<char>) -> Seq<char>
    decreases p.len(),
{
    if p.len() > 0 && p.last() == '/' {
        strip_trailing(p.drop_last())
    } else if p.len() >= 2 && p.last() == '.' && p[p.len() - 2] == '/' {
        strip_trailing(p.drop_last())
    } else {
        p
    }
}

/// The file name that every platform reads in a `plain_path`: the text
/// after the last `/` once trailing separators and `.` components are gone.
pub open spec fn plain_file_name(p: Seq<char>) -> Seq<char> {
    final_segment(strip_trailing(p))
}

/// A path whose file name every platform reads the same way: it holds no
/// backslash, has no `:` as its second character and does not start with
/// `//` (so no Windows prefix; a single leading `/` is the root everywhere,
/// and a `:` elsewhere is an ordinary character), and its `plain_file_name`
/// is a plain name, neither empty nor `.` nor `..`.
pub open spec fn plain_path(p: Seq<char>) -> bool {
    &&& !p.contains('\\')
    &&& !(p.len() >= 2 && p[1] == ':')
    &&& !(p.len() > 1 && p[0] == '/' && p[1] == '/')
    &&& plain_file_name(p).len() > 0
    &&& plain_file_name(p) != seq!['.']
    &&& plain_file_name(p) != seq!['.', '.']
}

/// The extension of a file name as `Path::extension` documents it: none
/// without a `.`, none when the only `.` is the first character, and
/// otherwise the text after the final `.`.
pub open spec fn name_extension(name: Seq<char>) -> Option<Seq<char>> {
    let d = last_index_of(name, '.', name.len() as int);
    if d <= 0 {
        None
    } else {
        Some(name.subrange(d + 1, name.len() as int))
    }
}

/// Whether `c` separates path components on some platform: `/` everywhere,
/// `\\` on Windows.
pub open spec fn is_separator(c: char) -> bool {
    c == '/' || c == '\\'
}

/// Index of the last separator of either kind in `p[..hi]`, or -1.
pub open spec fn last_separator(p: Seq<char>, hi: int) -> int
    decreases hi,
{
    if hi <= 0 {
        -1
    } else if is_separator(p[hi - 1]) {
        hi - 1
    } else {
        last_separator(p, hi - 1)
    }
}

/// The text after the last separator of either kind.
pub open spec fn final_component(p: Seq<char>) -> Seq<char> {
    p.subrange(last_separator(p, p.len() as int) + 1, p.len() as int)
}

/// A path whose extension every platform finds the same, whatever
/// separators it uses. With `s` the path without trailing `/` and `/.`,
/// and `f` the text of `s` after its last separator of either kind: the
/// path does not start with two separators (no UNC or verbatim prefix),
/// `f` is neither `.` nor `..`, `f` has a `.` after its first character,
/// and when `s` has no separator at all its second character is not `:`
/// (no drive prefix inside `f`). On Unix the file name is then the text
/// after the last `/`, which ends with `f`; on Windows it is `f`; both
/// extensions are the text of `f` after its last `.`.
pub open spec fn portable_extension_path(p: Seq<char>) -> bool {
    let s = strip_trailing(p);
    let f = final_component(s);
    &&& !(p.len() >= 2 && is_separator(p[0]) && is_separator(p[1]))
    &&& f != seq!['.']
    &&& f != seq!['.', '.']
    &&& name_extension(f) is Some
    &&& (last_separator(s, s.len() as int) < 0 ==> !(s.len() >= 2 && s[1] == ':'))
}

/// The extension of a `portable_extension_path`.
pub open spec fn portable_extension(p: Seq<char>) -> Seq<char> {
    name_extension(final_component(strip_trailing(p)))->0
}

proof fn lemma_last_separator(p: Seq<char>, hi: int)
    requires
        0 <= hi <= p.len(),
    ensures
        -1 <= last_separator(p, hi) < hi,
        last_separator(p, hi) >= 0 ==> is_separator(p[last_separator(p, hi)]),
        forall|i: int| last_separator(p, hi) < i < hi ==> !is_separator(p[i]),
    decreases hi,
{
    if hi > 0 && !is_separator(p[hi - 1]) {
        lemma_last_separator(p, hi - 1);
    }
}

proof fn lemma_last_index(p: Seq<char>, c: char, hi: int)
    requires
        0 <= hi <= p.len(),
    ensures
        -1 <= last_index_of(p, c, hi) < hi,
        last_index_of(p, c, hi) >= 0 ==> p[last_index_of(p, c, hi)] == c,
        forall|i: int| last_index_of(p, c, hi) < i < hi ==> p[i] != c,
    decreases hi,
{
    if hi > 0 && p[hi - 1] != c {
        lemma_last_index(p, c, hi - 1);
    }
}

/// The extension of a path is the text after its last `.`, on every
/// platform and whatever separators the path uses, when that `.` follows
/// the last separator (`/` or `\\`) with at least one other character
/// between them, some text follows it, the path does not start with two
/// separators, and a path without separators before the `.` has no `:` as
/// its second character.
pub proof fn lemma_extension_after_last_dot(p: Seq<char>, d: int)
    requires
        0 < d,
        d + 1 < p.len(),
        p[d] == '.',
        forall|i: int| d < i < p.len() ==> p[i] != '.' && p[i] != '/' && p[i] != '\\',
        p[d - 1] != '/' && p[d - 1] != '\\',
        !((p[0] == '/' || p[0] == '\\') && (p[1] == '/' || p[1] == '\\')),
        (forall|i: int| 0 <= i < d ==> p[i] != '/' && p[i] != '\\') ==> p[1] != ':',
    ensures
        portable_extension_path(p),
        portable_extension(p) == p.subrange(d + 1, p.len() as int),
{
    let n = p.len() as int;
    assert(strip_trailing(p) == p);
    lemma_last_separator(p, n);
    let ls = last_separator(p, n);
    assert(ls < d - 1) by {
        if ls >= d - 1 {
            assert(is_separator(p[ls]));
        }
    }
    let f = final_component(p);
    assert(f == p.subrange(ls + 1, n));
    let j = d - ls - 1;
    assert(f[j] == '.');
    lemma_last_index(f, '.', f.len() as int);
    let r = last_index_of(f, '.', f.len() as int);
    assert forall|i: int| j < i < f.len() implies f[i] != '.' by {
        assert(f[i] == p[ls + 1 + i]);
    }
    assert(r == j) by {
        if r < j {
            assert(f[j] != '.');
        } else if r > j {
            assert(f[r] == '.');
        }
    }
    assert(f.len() >= 3);
    assert(f != seq!['.']);
    assert(f != seq!['.', '.']);
    assert(f.subrange(r + 1, f.len() as int) =~= p.subrange(d + 1, n));
    if ls < 0 {
        assert forall|i: int| 0 <= i < d implies p[i] != '/' && p[i] != '\\' by {
            assert(!is_separator(p[i]));
        }
    }
}

/// `Path::extension` on the text of a path, converted to a `String`. Where
/// the file name ends depends in general on the platform's path syntax;
/// for a `plain_path` the file name is its `plain_file_name` on every platform,
/// and the result is that name's extension as the documentation gives it.
/// For a `portable_extension_path`, whatever its separators, every platform
/// finds the extension `portable_extension`. On every path there is no
/// extension without a `.`, and an extension holds no `.`. For other paths,
/// which part of the text the extension is, is not stated here.
#[verifier::external_body]
fn path_extension(path: &str) -> (r: Option<String>)
    ensures
        r matches Some(e) ==> path@.contains('.') && !e@.contains('.'),
        plain_path(path@) ==> match r {
            Some(e) => name_extension(plain_file_name(path@)) == Some(e@),
            None => name_extension(plain_file_name(path@)) is None,
        },
        portable_extension_path(path@) ==> r is Some && r->0@ == portable_extension(path@),
{
    std::path::Path::new(path).extension().and_then(|e| e.to_str()).map(|e| e.to_string())
}

/// The output format that a path selects when its file name is read the
/// same way on every platform (see `plain_path`).
pub open spec fn format_of_plain_path(p: Seq<char>) -> Option<OutputFormat> {
    match name_extension(plain_file_name(p)) {
        Some(e) => format_of_extension(e),
        None => None,
    }
}

impl CliArgs {
    /// The output format that the output path's extension selects; none
    /// without an output path. The extension is read by `Path::extension`,
    /// and `format_for_extension` maps it.
    pub fn output_format(&self) -> (r: Option<OutputFormat>)
        ensures
            self.output_path is None ==> r is None,
            r is Some ==> (self.output_path matches Some(p) && p@.contains('.')),
            self.output_path matches Some(p) ==> (plain_path(p@) ==> r == format_of_plain_path(p@)),
            self.output_path matches Some(p) ==> (portable_extension_path(p@) ==> r
                == format_of_extension(portable_extension(p@))),
    {
        match &self.output_path {
            None => None,
            Some(path) => match path_extension(path.as_str()) {
                None => None,
                Some(ext) => format_for_extension(ext.as_str()),
            },
        }
    }
}

/// The input method that a name selects: `direct` or `interpolated`.
pub open spec fn method_named(name: Seq<char>) -> Option<InputMethod> {
    if name == seq!['d', 'i', 'r', 'e', 'c', 't'] {
        Some(InputMethod::Direct)
    } else if name == seq!['i', 'n', 't', 'e', 'r', 'p', 'o', 'l', 'a', 't', 'e', 'd'] {
        Some(InputMethod::Interpolated)
    } else {
        None
    }
}

/// The input method that a name selects (see `method_named`).
pub fn method_from_name(name: &str) -> (r: Option<InputMethod>)
    ensures
        r == method_named(name@),
{
    let text = chars_of(name);
    let direct: Vec<char> = vec!['d', 'i', 'r', 'e', 'c', 't'];
    let interpolated: Vec<char> = vec!['i', 'n', 't', 'e', 'r', 'p', 'o', 'l', 'a', 't', 'e', 'd'];
    if same_chars(&text, &direct) {
        Some(InputMethod::Direct)
    } else if same_chars(&text, &interpolated) {
        Some(InputMethod::Interpolated)
    } else {
        None
    }
}

/// Reads a grid size argument; `name` names the argument in messages. The
/// text must denote a `usize` (see `usize_text_value`).
pub fn parse_usize(text: &str, name: &str) -> (n: usize)
    requires
        usize_text_value(text@) is Some,
    ensures
        n == usize_text_value(text@)->0,
{
    match read_usize(text) {
        Some(n) => n,
        None => 0,
    }
}

/// The grid size that argument `i` gives: its value when it is present, 32
/// otherwise; `None` when it is present and not a `usize`.
pub open spec fn mesh_arg(args: Seq<String>, i: int) -> Option<nat> {
    if args.len() > i {
        usize_text_value(args[i]@)
    } else {
        Some(32)
    }
}

/// Whether the first argument, if present, names an input method.
pub open spec fn method_arg_ok(args: Seq<String>) -> bool {
    args.len() == 0 || method_named(args[0]@) is Some
}

/// The input file used when none is given.
pub open spec fn default_input_path() -> Seq<char> {
    "inputs/examples/default_script.toml"@
}

/// Reads the command line after the program name: an optional input method
/// (`direct` or `interpolated`), the input path (default
/// `inputs/examples/default_script.toml`), the output path (default
/// `default_output`), and the grid sizes `mesh_u` and `mesh_v` (default 32
/// each). Arguments past the fifth are ignored. An unknown method is
/// reported first, then an invalid `mesh_u`, then an invalid `mesh_v`.
pub fn parse_arguments(args: &Vec<String>, default_output: String) -> (r: Result<CliArgs, CliError>)
    ensures
        r is Ok <==> method_arg_ok(args@) && mesh_arg(args@, 3) is Some && mesh_arg(args@, 4) is Some,
        r matches Ok(a) ==> {
            &&& a.method == (if args@.len() == 0 {
                None
            } else {
                method_named(args@[0]@)
            })
            &&& a.input_path@ == (if args@.len() > 1 {
                args@[1]@
            } else {
                default_input_path()
            })
            &&& a.output_path matches Some(out) && out@ == (if args@.len() > 2 {
                args@[2]@
            } else {
                default_output@
            })
            &&& a.mesh_u == mesh_arg(args@, 3)->0
            &&& a.mesh_v == mesh_arg(args@, 4)->0
        },
        r matches Err(CliError::UnknownMethod(t)) ==> !method_arg_ok(args@) && t@ == args@[0]@,
        r matches Err(CliError::InvalidNumber { name, text }) ==> method_arg_ok(args@) && (if mesh_arg(args@, 3) is None {
            name@ == "mesh_u"@ && text@ == args@[3]@
        } else {
            mesh_arg(args@, 4) is None && name@ == "mesh_v"@ && text@ == args@[4]@
        }),
        !method_arg_ok(args@) ==> r is Err && r->Err_0 is UnknownMethod,
{
    let method = if args.len() == 0 {
        None
    } else {
        match method_from_name(args[0].as_str()) {
            Some(m) => Some(m),
            None => {
                return Err(CliError::UnknownMethod(args[0].clone()));
            },
        }
    };
    let input_path = if args.len() > 1 {
        args[1].clone()
    } else {
        String::from_str("inputs/examples/default_script.toml")
    };
    let output_path = if args.len() > 2 {
        args[2].clone()
    } else {
        default_output
    };
    let mesh_u = if args.len() > 3 {
        match read_usize(args[3].as_str()) {
            Some(n) => n,
            None => {
                return Err(
                    CliError::InvalidNumber {
                        name: String::from_str("mesh_u"),
                        text: args[3].clone(),
                    },
                );
            },
        }
    } else {
        32
    };
    let mesh_v = if args.len() > 4 {
        match read_usize(args[4].as_str()) {
            Some(n) => n,
            None => {
                return Err(
                    CliError::InvalidNumber {
                        name: String::from_str("mesh_v"),
                        text: args[4].clone(),
                    },
                );
            },
        }
    } else {
        32
    };
    Ok(CliArgs { method, input_path, output_path: Some(output_path), mesh_u, mesh_v })
}

/// The name of the output file used when none is given:
/// `surface_<timestamp>.vtk`, with the timestamp in decimal.
pub fn default_output_file_name(timestamp: u64) -> (name: String)
    ensures
        name@ == seq!['s', 'u', 'r', 'f', 'a', 'c', 'e', '_'] + decimal(timestamp as nat) + seq![
            '.',
            'v',
            't',
            'k',
        ],
{
    let mut chars: Vec<char> = vec!['s', 'u', 'r', 'f', 'a', 'c', 'e', '_'];
    let mut digits = decimal_chars(timestamp);
    chars.append(&mut digits);
    chars.push('.');
    chars.push('v');
    chars.push('t');
    chars.push('k');
    string_from_chars(chars.as_slice())
}

} // verus!
