//! From the text of a schema file to its parsed contents, and the command line.
use vstd::prelude::*;
use crate::text::chars_of;
use crate::error::{ProtoError};
use crate::id_generator::IdGenerator;
use crate::lexems::{located_chars, lexem_views, lexems_of, read_chars, read_lexems};
use crate::package::{ProtoFile};
use crate::syntax::{parse_file, parse_package, well_ended};

verus! {

/// Whether the text has a character to locate (byte order marks are not counted).
pub fn has_located_chars(content: &str) -> (r: bool)
    requires
        content@.len() < usize::MAX,
    ensures
        r == (located_chars(content@).len() > 0),
{
    let chars = read_chars(content);
    chars.len() > 0
}

/// The parsed contents of a schema file: its text read into lexems, then parsed.
pub fn read_proto_file(file_path: &str, content: &str, name: String, ids: &mut IdGenerator) -> (r: Result<ProtoFile, ProtoError>)
    requires
        content@.len() < usize::MAX,
        located_chars(content@).len() > 0,
    ensures
        match lexems_of(content@, file_path@) {
            Err(e) => r matches Err(x) && x@ == e,
            Ok(ls) => {
                ls.len() < usize::MAX - old(ids)@ ==> match parse_file(ls, file_path@, name@, old(ids)@) {
                    Ok((f, n)) => r matches Ok(x) && x@ == f && final(ids)@ == n,
                    Err(e) => r matches Err(x) && x@ == e,
                }
            },
        },
{
    let lexems = read_lexems(file_path, content)?;
    if lexems.len() >= usize::MAX - ids.last_id() {
        return Err(ProtoError::new("Too many lexems in one file"));
    }
    assert(well_ended(lexem_views(lexems@)));
    parse_package(&lexems, file_path, name, ids)
}

/// The two paths the command line names, as written: the schema folder (the last
/// argument not taken as the output folder) and the output folder (the argument after
/// `--out`).
pub open spec fn selected_paths(args: Seq<Seq<char>>) -> (bool, Option<Seq<char>>, Option<Seq<char>>)
    decreases args.len(),
{
    if args.len() == 0 {
        (false, None, None)
    } else {
        let (expecting_out, proto, out) = selected_paths(args.drop_last());
        let arg = args.last();
        if arg == "--out"@ {
            (true, proto, out)
        } else if expecting_out {
            (false, proto, Some(arg))
        } else {
            (false, Some(arg), out)
        }
    }
}

/// The paths the command line names, as written (see `selected_paths`).
pub fn select_paths(args: &Vec<String>) -> (r: (Option<String>, Option<String>))
    ensures
        ({
            let (_, proto, out) = selected_paths(crate::text::views(args@));
            (match r.0 {
                Some(s) => proto == Some(s@),
                None => proto is None,
            }) && (match r.1 {
                Some(s) => out == Some(s@),
                None => out is None,
            })
        }),
{
    let ghost av = crate::text::views(args@);
    let mut expecting_out = false;
    let mut proto: Option<String> = None;
    let mut out: Option<String> = None;
    let mut i: usize = 0;
    while i < args.len()
        invariant
            i <= args@.len(),
            av == crate::text::views(args@),
            ({
                let (e, p, o) = selected_paths(av.take(i as int));
                e == expecting_out && (match proto {
                    Some(s) => p == Some(s@),
                    None => p is None,
                }) && (match out {
                    Some(s) => o == Some(s@),
                    None => o is None,
                })
            }),
        decreases args@.len() - i,
    {
        proof {
            assert(av.take(i + 1).drop_last() =~= av.take(i as int));
            assert(av.take(i + 1).last() == args@[i as int]@);
        }
        let arg = &args[i];
        if crate::text::str_eq(arg.as_str(), "--out") {
            expecting_out = true;
        } else if expecting_out {
            out = Some(arg.clone());
            expecting_out = false;
        } else {
            proto = Some(arg.clone());
        }
        i = i + 1;
    }
    assert(av.take(args@.len() as int) =~= av);
    (proto, out)
}

/// Whether the shorter of two component lists is a prefix of the longer.
pub open spec fn one_prefixes_other(cur: Seq<Seq<char>>, file: Seq<Seq<char>>) -> bool {
    forall|i: int| 0 <= i < cur.len() && i < file.len() ==> #[trigger] cur[i] == file[i]
}

/// The path of a file relative to the working folder, both given by their
/// components: `.` when the file's components end within the folder's, else `./`
/// and the first component past them.
pub open spec fn relative_path_text(cur: Seq<Seq<char>>, file: Seq<Seq<char>>) -> Seq<char> {
    if file.len() <= cur.len() {
        "."@
    } else {
        "./"@ + file[cur.len() as int]
    }
}

/// The path of a file relative to the working folder, from the components of both
/// (canonical paths).
pub fn relative_file_path(cur_dir: &Vec<String>, file_path: &Vec<String>) -> (r: String)
    requires
        one_prefixes_other(crate::text::views(cur_dir@), crate::text::views(file_path@)),
    ensures
        r@ == relative_path_text(crate::text::views(cur_dir@), crate::text::views(file_path@)),
{
    proof {
        reveal_strlit(".");
        reveal_strlit("./");
    }
    let mut res = ".".to_string();
    if file_path.len() > cur_dir.len() {
        res.append("/");
        proof {
            reveal_strlit("/");
        }
        res.append(file_path[cur_dir.len()].as_str());
        assert(res@ =~= "./"@ + crate::text::views(file_path@)[cur_dir.len() as int]);
    }
    res
}

/// The folders the command line names.
#[derive(Debug)]
pub struct CliArguments {
    pub proto_folder_path: String,
    pub out_folder_path: String,
}

/// What `path_clean::clean` makes of a path: each `.` dropped, each `..` taken back
/// against the component before it, repeated separators merged, `.` where nothing is
/// left. It is a function of the path alone on a given target.
pub uninterp spec fn cleaned_path(path: Seq<char>) -> Seq<char>;

/// Calls `path_clean::clean` on the path and turns the cleaned path back into a
/// string (the input is UTF-8, so nothing is lost). The contract claims that the
/// result is the path's cleaned form, which is never empty (`clean` gives `.` where
/// no component is left); how the cleaned form is spelled out is left to `clean`.
#[verifier::external_body]
fn clean_path(path: &str) -> (r: String)
    ensures
        r@ == cleaned_path(path@),
        r@.len() > 0,
{
    path_clean::clean(path).to_string_lossy().into_owned()
}

/// `path` taken from the folder `current_dir`: itself where it is absolute.
pub open spec fn absolute_path_text(current_dir: Seq<char>, path: Seq<char>) -> Seq<char> {
    if path.len() > 0 && path[0] == '/' {
        path
    } else {
        current_dir + "/"@ + path
    }
}

/// `path` taken from the folder `current_dir`, cleaned.
fn absolute_path(current_dir: &str, path: &str) -> (r: String)
    ensures
        r@ == cleaned_path(absolute_path_text(current_dir@, path@)),
        r@.len() > 0,
{
    let cs = chars_of(path);
    if cs.len() > 0 && cs[0] == '/' {
        clean_path(path)
    } else {
        let mut joined = String::new();
        joined.append(current_dir);
        joined.append("/");
        joined.append(path);
        proof {
            reveal_strlit("/");
        }
        assert(joined@ =~= current_dir@ + "/"@ + path@);
        clean_path(joined.as_str())
    }
}

/// The folders the command line names: the schema folder as an absolute path, taken
/// from `current_dir` (`.` where none is named), cleaned; the output folder cleaned,
/// `./out` where none is named.
pub fn get_proto_folder_path(args: &Vec<String>, current_dir: &str) -> (r: CliArguments)
    ensures
        r.proto_folder_path@.len() > 0,
        r.out_folder_path@.len() > 0,
        r.proto_folder_path@ == cleaned_path(absolute_path_text(current_dir@, match selected_paths(crate::text::views(args@)).1 {
            Some(p) => p,
            None => "."@,
        })),
        r.out_folder_path@ == match selected_paths(crate::text::views(args@)).2 {
            Some(o) => cleaned_path(o),
            None => "./out"@,
        },
{
    let (proto, out) = select_paths(args);
    let proto_folder_path = match proto {
        Some(p) => absolute_path(current_dir, p.as_str()),
        None => {
            let here = ".";
            proof {
                reveal_strlit(".");
            }
            absolute_path(current_dir, here)
        },
    };
    let out_folder_path = match out {
        Some(o) => clean_path(o.as_str()),
        None => {
            proof {
                reveal_strlit("./out");
            }
            "./out".to_string()
        },
    };
    CliArguments { proto_folder_path, out_folder_path }
}

} // verus!
