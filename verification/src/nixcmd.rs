//! What comes back from an invoked command, and how store paths are read
//! out of it. Spawning the command is the caller's work.

use vstd::prelude::*;
use crate::json::JVal;
use crate::json::Json;
use crate::json::jget;
use crate::json::jview;
use crate::json::jview_list;
use crate::json::ser_jval;
use crate::json::wf_jval;
use crate::jparse::parse_json_text;
use crate::lsp::spec_str_field;
use crate::output::spec_lines;
use crate::output::split_lines;
use crate::lsp::strings_view;
use crate::strutil::push_chars;
use crate::strutil::str_starts_with;

verus! {

/// A failure of an invoked command, by kind.
#[derive(Debug)]
pub enum NixError {
    /// The command could not be run or reported failure out of band.
    CommandFailed(String),
    /// The command ran past its deadline, in seconds.
    Timeout(u64),
    /// An input/output failure around the subprocess.
    Io(String),
}

impl NixError {
    /// The text the failure describes itself with.
    pub fn message(&self) -> (r: String)
        ensures
            match self {
                NixError::CommandFailed(m) => r@ == "nix command failed: "@ + m@,
                NixError::Timeout(_) => r@ == "nix command timed out"@,
                NixError::Io(m) => r@ == "io error: "@ + m@,
            },
    {
        let mut s = String::new();
        match self {
            NixError::CommandFailed(m) => {
                push_chars(&mut s, "nix command failed: ");
                push_chars(&mut s, m.as_str());
            },
            NixError::Timeout(_) => {
                push_chars(&mut s, "nix command timed out");
            },
            NixError::Io(m) => {
                push_chars(&mut s, "io error: ");
                push_chars(&mut s, m.as_str());
            },
        }
        s
    }
}

/// What an invoked command produced.
#[derive(Debug)]
pub struct NixOutput {
    pub success: bool,
    pub stdout: String,
    pub stderr: String,
    pub exit_code: Option<i32>,
}

/// The lines that are store paths.
pub open spec fn spec_store_path_lines(lines: Seq<Seq<char>>) -> Seq<Seq<char>>
    decreases lines,
{
    if lines.len() == 0 {
        Seq::empty()
    } else {
        spec_store_path_lines(lines.drop_last()) + (if is_store_line(lines.last()) {
            seq![lines.last()]
        } else {
            Seq::empty()
        })
    }
}

/// A line that begins with the store prefix.
pub open spec fn is_store_line(line: Seq<char>) -> bool {
    line.len() >= 11 && line.subrange(0, 11) == "/nix/store/"@
}

/// The lines of the text that are store paths, in order.
pub fn parse_store_paths(stdout: &str) -> (r: Vec<String>)
    ensures
        strings_view(r@) == spec_store_path_lines(spec_lines(stdout@)),
{
    let lines = split_lines(stdout);
    let ghost lv = strings_view(lines@);
    proof {
        crate::lsp::lemma_strings_view_index(lines@);
        assert(lv.take(0) =~= Seq::<Seq<char>>::empty());
        assert(strings_view(Seq::<String>::empty()) =~= spec_store_path_lines(lv.take(0)));
    }
    let mut r: Vec<String> = Vec::new();
    let mut i: usize = 0;
    while i < lines.len()
        invariant
            lv == strings_view(lines@),
            lv.len() == lines@.len(),
            forall|m: int| 0 <= m < lines@.len() ==> lv[m] == (#[trigger] lines@[m])@,
            i <= lines@.len(),
            strings_view(r@) == spec_store_path_lines(lv.take(i as int)),
        decreases lines@.len() - i,
    {
        proof {
            reveal_strlit("/nix/store/");
        }
        let line: &String = &lines[i];
        let ghost pre = r@;
        if str_starts_with(line.as_str(), "/nix/store/") {
            let s = line.clone();
            proof {
                assert(pre.push(s).drop_last() =~= pre);
                assert(pre.push(s).last() == s);
            }
            r.push(s);
        }
        proof {
            assert(lv.take(i + 1 as int).drop_last() =~= lv.take(i as int));
            assert(lv.take(i + 1 as int).last() == lv[i as int]);
            assert(strings_view(r@) =~= spec_store_path_lines(lv.take(i + 1 as int)));
        }
        i = i + 1;
    }
    proof {
        assert(lv.take(lv.len() as int) =~= lv);
    }
    r
}

/// The `outputs.out` strings of an array of build results.
pub open spec fn spec_out_paths(items: Seq<JVal>) -> Seq<Seq<char>>
    decreases items,
{
    if items.len() == 0 {
        Seq::empty()
    } else {
        spec_out_paths(items.drop_last()) + (match spec_out_of(items.last()) {
            Some(p) => seq![p],
            None => Seq::empty(),
        })
    }
}

/// The `outputs.out` string of one build result, if present.
pub open spec fn spec_out_of(v: JVal) -> Option<Seq<char>> {
    match jget(v, "outputs"@) {
        Some(outs) => spec_str_field(outs, "out"@),
        None => None,
    }
}

/// The `outputs.out` strings of a parsed build report.
pub open spec fn spec_json_store_paths(v: JVal) -> Seq<Seq<char>> {
    match v {
        JVal::Arr(items) => spec_out_paths(items),
        _ => Seq::empty(),
    }
}

/// Reads the default output paths out of a build report value.
pub fn store_paths_of_json(v: &Json) -> (r: Vec<String>)
    ensures
        strings_view(r@) == spec_json_store_paths(v@),
{
    let items = match v.as_items() {
        Some(items) => items,
        None => {
            proof {
                assert(strings_view(Seq::<String>::empty()) =~= Seq::<Seq<char>>::empty());
            }
            return Vec::new();
        },
    };
    let ghost iv = jview_list(items@);
    proof {
        crate::json::lemma_jview_list_index(items@);
        assert(iv.take(0) =~= Seq::<JVal>::empty());
        assert(strings_view(Seq::<String>::empty()) =~= spec_out_paths(iv.take(0)));
    }
    let mut r: Vec<String> = Vec::new();
    let mut i: usize = 0;
    while i < items.len()
        invariant
            iv == jview_list(items@),
            iv.len() == items@.len(),
            forall|m: int| 0 <= m < items@.len() ==> iv[m] == jview(#[trigger] items@[m]),
            i <= items@.len(),
            strings_view(r@) == spec_out_paths(iv.take(i as int)),
        decreases items@.len() - i,
    {
        let item: &Json = &items[i];
        let ghost pre = r@;
        let picked: Option<String> = match item.get("outputs") {
            Some(outs) => match outs.get("out") {
                Some(o) => match o.as_text() {
                    Some(s) => Some(s.clone()),
                    None => None,
                },
                None => None,
            },
            None => None,
        };
        proof {
            assert(match picked {
                Some(s) => spec_out_of(iv[i as int]) == Some(s@),
                None => spec_out_of(iv[i as int]) is None,
            });
        }
        match picked {
            Some(s) => {
                proof {
                    assert(pre.push(s).drop_last() =~= pre);
                    assert(pre.push(s).last() == s);
                }
                r.push(s);
            },
            None => {},
        }
        proof {
            assert(iv.take(i + 1 as int).drop_last() =~= iv.take(i as int));
            assert(iv.take(i + 1 as int).last() == iv[i as int]);
            assert(strings_view(r@) =~= spec_out_paths(iv.take(i + 1 as int)));
        }
        i = i + 1;
    }
    proof {
        assert(iv.take(iv.len() as int) =~= iv);
    }
    r
}

/// Reads the default output paths out of a build report text; text that is
/// not a JSON array yields nothing.
pub fn parse_json_store_paths(stdout: &str) -> (r: Vec<String>)
    ensures
        forall|jv: JVal|
            (wf_jval(jv) && stdout@ == #[trigger] ser_jval(jv)) ==> strings_view(r@)
                == spec_json_store_paths(jv),
{
    match parse_json_text(stdout) {
        Some(v) => store_paths_of_json(&v),
        None => {
            proof {
                assert(strings_view(Seq::<String>::empty()) =~= Seq::<Seq<char>>::empty());
            }
            Vec::new()
        },
    }
}

} // verus!
