//! The `swamp` command line: how it is addressed, what a failed command is
//! reported as, and how a method run ends.
use vstd::prelude::*;
use vstd::string::*;
use crate::error::{error_text, Error};
use crate::json_text::{nat_text, quote, quote_str, u64_text};
use crate::text::{chars_of, string_from_chars, views};

verus! {

#[verifier::external_type_specification]
#[verifier::external_body]
pub struct ExPathBuf(std::path::PathBuf);

/// What a method run reports: a line of its output, or how it ended.
pub enum RunEvent {
    Log(String),
    Finished { success: bool, lock_contended: bool, message: String },
}

/// The `swamp` program and the repository it works on.
pub struct SwampCli {
    binary: std::path::PathBuf,
    repo_dir: std::path::PathBuf,
}

impl SwampCli {
    pub closed spec fn binary_spec(&self) -> std::path::PathBuf {
        self.binary
    }

    pub closed spec fn repo_dir_spec(&self) -> std::path::PathBuf {
        self.repo_dir
    }

    pub fn new(binary: std::path::PathBuf, repo_dir: std::path::PathBuf) -> (r: Self)
        ensures
            r.binary_spec() == binary,
            r.repo_dir_spec() == repo_dir,
    {
        SwampCli { binary, repo_dir }
    }

    /// The program to run.
    pub fn binary(&self) -> (r: &std::path::PathBuf)
        ensures
            *r == self.binary_spec(),
    {
        &self.binary
    }

    /// The repository to work on.
    pub fn repo_dir(&self) -> (r: &std::path::PathBuf)
        ensures
            *r == self.repo_dir_spec(),
    {
        &self.repo_dir
    }
}

/// A string as a CEL string literal (the JSON literal).
pub fn cel_string(value: &str) -> (r: String)
    ensures
        r@ == quote(value@),
{
    quote_str(value)
}

/// The query that selects one version of an artifact.
pub open spec fn predicate_text(model: Seq<char>, name: Seq<char>, version: u64) -> Seq<char> {
    "modelName == "@ + quote(model) + " && name == "@ + quote(name) + " && version == "@ + nat_text(
        version as nat,
    )
}

/// The query that selects one version of an artifact, the names written as
/// string literals.
pub fn historical_predicate(model: &str, name: &str, version: u64) -> (r: String)
    ensures
        r@ == predicate_text(model@, name@, version),
{
    let mut s = String::from_str("modelName == ");
    let m = cel_string(model);
    s.append(m.as_str());
    s.append(" && name == ");
    let n = cel_string(name);
    s.append(n.as_str());
    s.append(" && version == ");
    let v = u64_text(version);
    s.append(v.as_str());
    proof {
        reveal_strlit("modelName == ");
        reveal_strlit(" && name == ");
        reveal_strlit(" && version == ");
    }
    s
}

/// Unicode `White_Space`, which `str::trim` removes.
pub open spec fn is_white_space(c: char) -> bool {
    ||| '\u{9}' <= c <= '\u{D}'
    ||| c == ' '
    ||| c == '\u{85}'
    ||| c == '\u{A0}'
    ||| c == '\u{1680}'
    ||| '\u{2000}' <= c <= '\u{200A}'
    ||| c == '\u{2028}'
    ||| c == '\u{2029}'
    ||| c == '\u{202F}'
    ||| c == '\u{205F}'
    ||| c == '\u{3000}'
}

/// The text without leading and trailing white space (`str::trim`).
pub open spec fn trim(s: Seq<char>) -> Seq<char>
    decreases s.len(),
{
    if s.len() > 0 && is_white_space(s[0]) {
        trim(s.drop_first())
    } else if s.len() > 0 && is_white_space(s.last()) {
        trim(s.drop_last())
    } else {
        s
    }
}

fn white_space(c: char) -> (r: bool)
    ensures
        r == is_white_space(c),
{
    ('\u{9}' <= c && c <= '\u{D}') || c == ' ' || c == '\u{85}' || c == '\u{A0}' || c == '\u{1680}' || ('\u{2000}'
        <= c && c <= '\u{200A}') || c == '\u{2028}' || c == '\u{2029}' || c == '\u{202F}' || c == '\u{205F}'
        || c == '\u{3000}'
}

/// `str::trim`, as an owned string.
pub fn trimmed(s: &str) -> (r: String)
    ensures
        r@ == trim(s@),
{
    let cs = chars_of(s);
    let mut lo: usize = 0;
    let mut hi: usize = cs.len();
    proof {
        assert(s@.subrange(0, hi as int) =~= s@);
    }
    while lo < hi && (white_space(cs[lo]) || white_space(cs[hi - 1]))
        invariant
            lo <= hi <= cs.len(),
            cs@ == s@,
            trim(s@) == trim(s@.subrange(lo as int, hi as int)),
        decreases hi - lo,
    {
        let ghost cur = s@.subrange(lo as int, hi as int);
        if white_space(cs[lo]) {
            proof {
                assert(cur.drop_first() =~= s@.subrange(lo as int + 1, hi as int));
            }
            lo = lo + 1;
        } else {
            proof {
                assert(cur.drop_last() =~= s@.subrange(lo as int, hi as int - 1));
            }
            hi = hi - 1;
        }
    }
    let mut out: Vec<char> = Vec::new();
    let mut i: usize = lo;
    while i < hi
        invariant
            lo <= i <= hi <= cs.len(),
            cs@ == s@,
            out@ == s@.subrange(lo as int, i as int),
        decreases hi - i,
    {
        out.push(cs[i]);
        proof {
            assert(out@ =~= s@.subrange(lo as int, i as int + 1));
        }
        i = i + 1;
    }
    proof {
        let cur = s@.subrange(lo as int, hi as int);
        assert(out@ == cur);
        if cur.len() > 0 {
            assert(cur[0] == cs@[lo as int]);
            assert(cur.last() == cs@[hi - 1]);
        }
        assert(trim(cur) == cur);
    }
    string_from_chars(&out)
}

/// What UTF-8 decoding with replacement (`String::from_utf8_lossy`) gives
/// for some bytes.
pub uninterp spec fn utf8_lossy(bytes: Seq<u8>) -> Seq<char>;

/// Decodes bytes as UTF-8, replacing invalid sequences
/// (`String::from_utf8_lossy`). The contract claims only that the result is
/// the named decoding of the bytes.
#[verifier::external_body]
pub(crate) fn lossy_text(bytes: &Vec<u8>) -> (r: String)
    ensures
        r@ == utf8_lossy(bytes@),
{
    String::from_utf8_lossy(bytes.as_slice()).into_owned()
}

/// The error object `swamp` writes on failure.
pub struct Envelope {
    pub error: String,
    pub code: Option<String>,
}

/// The message of a failed command: the error object's message (read from
/// standard output first, else standard error), or else the trimmed text
/// of standard error, or of standard output where standard error is empty.
pub open spec fn failure_message(
    out_envelope: Option<Envelope>,
    err_envelope: Option<Envelope>,
    stdout: Seq<u8>,
    stderr: Seq<u8>,
) -> Seq<char> {
    match out_envelope {
        Some(e) => e.error@,
        None => match err_envelope {
            Some(e) => e.error@,
            None => trim(utf8_lossy(if stderr.len() == 0 { stdout } else { stderr })),
        },
    }
}

/// The error code of a failed command, from the error object that was read.
pub open spec fn failure_code(out_envelope: Option<Envelope>, err_envelope: Option<Envelope>) -> Option<Seq<char>> {
    match out_envelope {
        Some(e) => match e.code {
            Some(c) => Some(c@),
            None => None,
        },
        None => match err_envelope {
            Some(e) => match e.code {
                Some(c) => Some(c@),
                None => None,
            },
            None => None,
        },
    }
}

/// The error for a command that exited unsuccessfully. `status` is the exit
/// status as shown; `out_envelope` and `err_envelope` are the error objects
/// read from standard output and standard error, where they hold one.
pub fn command_error(
    status: String,
    out_envelope: Option<Envelope>,
    err_envelope: Option<Envelope>,
    stdout: &Vec<u8>,
    stderr: &Vec<u8>,
) -> (r: Error)
    ensures
        match r {
            Error::Command { status: s, message, code } => s@ == status@ && message@ == failure_message(
                out_envelope,
                err_envelope,
                stdout@,
                stderr@,
            ) && match code {
                Some(c) => failure_code(out_envelope, err_envelope) == Some(c@),
                None => failure_code(out_envelope, err_envelope) is None,
            },
            _ => false,
        },
{
    let ghost oe = out_envelope;
    let ghost ee = err_envelope;
    let envelope = match out_envelope {
        Some(e) => Some(e),
        None => err_envelope,
    };
    match envelope {
        Some(e) => Error::Command { status, message: e.error, code: e.code },
        None => {
            let fallback = if stderr.len() == 0 {
                stdout
            } else {
                stderr
            };
            let text = lossy_text(fallback);
            let message = trimmed(text.as_str());
            Error::Command { status, message, code: None }
        },
    }
}

/// The exit code `swamp` uses when another run holds the model's lock.
pub open spec fn lock_contended_code() -> i32 {
    75
}

/// How a method run that was waited for ended. `status` is the exit status
/// as shown, `code` its exit code where it has one.
pub fn run_finished(success: bool, code: Option<i32>, status: &str) -> (r: RunEvent)
    ensures
        r matches RunEvent::Finished { success: s, lock_contended, message } && s == success && lock_contended
            == (code == Some(lock_contended_code())) && message@ == if success {
            "Method completed successfully"@
        } else if code == Some(lock_contended_code()) {
            "The model is locked by another run; retry later"@
        } else {
            "Method exited with "@ + status@
        },
{
    let lock_contended = match code {
        Some(c) => c == 75,
        None => false,
    };
    let message = if success {
        String::from_str("Method completed successfully")
    } else if lock_contended {
        String::from_str("The model is locked by another run; retry later")
    } else {
        let mut m = String::from_str("Method exited with ");
        m.append(status);
        m
    };
    RunEvent::Finished { success, lock_contended, message }
}

/// How a method run ended when waiting for it failed.
pub fn run_wait_failed(error: &str) -> (r: RunEvent)
    ensures
        r matches RunEvent::Finished { success, lock_contended, message } && !success && !lock_contended
            && message@ == "Could not wait for method: "@ + error@,
{
    let mut m = String::from_str("Could not wait for method: ");
    m.append(error);
    RunEvent::Finished { success: false, lock_contended: false, message: m }
}

} // verus!

verus! {

/// What the browser asks of the `swamp` program.
pub enum Query {
    Version,
    Models,
    Model(String),
    DescribeType(String),
    Validate { model: String, method: String },
    Run { model: String, method: String },
    Cancel(String),
    AllData,
    Workflows,
    Workflow(String),
    Data(String),
    LatestData { model: String, name: String },
    DataVersions { model: String, name: String },
    DataVersion { model: String, name: String, version: u64 },
}

/// A command line of `swamp`: the arguments after the program, whether
/// `--repo-dir` and the repository follow them, whether `--json` ends it,
/// and whether the input goes to its standard input.
pub struct Invocation {
    pub args: Vec<String>,
    pub repo_dir: bool,
    pub json: bool,
    pub stdin: bool,
}

/// What the metadata query over all artifacts selects.
pub open spec fn all_data_select() -> Seq<char> {
    "{\"id\": id, \"name\": name, \"version\": version, \"createdAt\": createdAt, \"modelName\": modelName, \"modelId\": modelId, \"dataType\": dataType, \"contentType\": contentType, \"lifetime\": lifetime, \"ownerType\": ownerType, \"streaming\": streaming, \"size\": size, \"tags\": tags}"@
}

/// The arguments of each query, after `--no-color`.
pub open spec fn query_args(q: Query) -> Seq<Seq<char>> {
    match q {
        Query::Version => seq!["--version"@],
        Query::Models => seq!["model"@, "search"@],
        Query::Model(name) => seq!["model"@, "get"@, name@],
        Query::DescribeType(t) => seq!["model"@, "type"@, "describe"@, t@],
        Query::Validate { model, method } => seq!["model"@, "validate"@, model@, "--method"@, method@],
        Query::Run { model, method } => seq!["model"@, "method"@, "run"@, model@, method@, "--stdin"@],
        Query::Cancel(model) => seq!["model"@, "cancel"@, model@, "--reason"@, "Cancelled from lazyswamp"@],
        Query::AllData => seq!["data"@, "query"@, "isLatest"@, "--select"@, all_data_select()],
        Query::Workflows => seq!["workflow"@, "search"@],
        Query::Workflow(name) => seq!["workflow"@, "get"@, name@],
        Query::Data(model) => seq!["data"@, "list"@, model@],
        Query::LatestData { model, name } => seq!["data"@, "get"@, model@, name@],
        Query::DataVersions { model, name } => seq!["data"@, "versions"@, model@, name@],
        Query::DataVersion { model, name, version } => seq![
            "data"@,
            "query"@,
            predicate_text(model@, name@, version),
        ],
    }
}

/// The version query reads plain text and the run streams its output; a
/// type description is not tied to the repository; every other query
/// names the repository and reads JSON.
pub open spec fn invocation_of(q: Query) -> (Seq<Seq<char>>, bool, bool, bool) {
    (
        seq!["--no-color"@] + query_args(q),
        !(q is Version || q is DescribeType),
        !(q is Version || q is Run),
        q is Run,
    )
}

} // verus!

verus! {

fn strings(parts: &Vec<&str>) -> (r: Vec<String>)
    ensures
        views(r@) == Seq::new(parts@.len(), |i: int| parts@[i]@),
{
    let mut out: Vec<String> = Vec::new();
    let mut i: usize = 0;
    while i < parts.len()
        invariant
            i <= parts.len(),
            views(out@) == Seq::new(i as nat, |k: int| parts@[k]@),
        decreases parts.len() - i,
    {
        let ghost before = views(out@);
        let s = String::from_str(parts[i]);
        let ghost sv = s@;
        out.push(s);
        proof {
            assert(sv == parts@[i as int]@);
            assert(views(out@) =~= before.push(sv));
            assert(views(out@) =~= Seq::new((i + 1) as nat, |k: int| parts@[k]@));
        }
        i = i + 1;
    }
    out
}

/// The command line of a query (`invocation_of`).
pub fn invocation(q: &Query) -> (r: Invocation)
    ensures
        (views(r.args@), r.repo_dir, r.json, r.stdin) == invocation_of(*q),
{
    let predicate: String;
    let parts: Vec<&str> = match q {
        Query::Version => vec!["--no-color", "--version"],
        Query::Models => vec!["--no-color", "model", "search"],
        Query::Model(name) => vec!["--no-color", "model", "get", name.as_str()],
        Query::DescribeType(t) => vec!["--no-color", "model", "type", "describe", t.as_str()],
        Query::Validate { model, method } => vec![
            "--no-color",
            "model",
            "validate",
            model.as_str(),
            "--method",
            method.as_str(),
        ],
        Query::Run { model, method } => vec![
            "--no-color",
            "model",
            "method",
            "run",
            model.as_str(),
            method.as_str(),
            "--stdin",
        ],
        Query::Cancel(model) => vec!["--no-color", "model", "cancel", model.as_str(), "--reason", "Cancelled from lazyswamp"],
        Query::AllData => vec![
            "--no-color",
            "data",
            "query",
            "isLatest",
            "--select",
            "{\"id\": id, \"name\": name, \"version\": version, \"createdAt\": createdAt, \"modelName\": modelName, \"modelId\": modelId, \"dataType\": dataType, \"contentType\": contentType, \"lifetime\": lifetime, \"ownerType\": ownerType, \"streaming\": streaming, \"size\": size, \"tags\": tags}",
        ],
        Query::Workflows => vec!["--no-color", "workflow", "search"],
        Query::Workflow(name) => vec!["--no-color", "workflow", "get", name.as_str()],
        Query::Data(model) => vec!["--no-color", "data", "list", model.as_str()],
        Query::LatestData { model, name } => vec!["--no-color", "data", "get", model.as_str(), name.as_str()],
        Query::DataVersions { model, name } => vec!["--no-color", "data", "versions", model.as_str(), name.as_str()],
        Query::DataVersion { model, name, version } => {
            predicate = historical_predicate(model.as_str(), name.as_str(), *version);
            vec!["--no-color", "data", "query", predicate.as_str()]
        },
    };
    let args = strings(&parts);
    let repo_dir = match q {
        Query::Version | Query::DescribeType(_) => false,
        _ => true,
    };
    let json = match q {
        Query::Version | Query::Run { .. } => false,
        _ => true,
    };
    let stdin = match q {
        Query::Run { .. } => true,
        _ => false,
    };
    proof {
        assert(views(args@) =~= invocation_of(*q).0);
    }
    Invocation { args, repo_dir, json, stdin }
}

} // verus!

verus! {

/// The browser only reads, apart from running and cancelling methods: every
/// command it sends is a search, a read, a type description, a validation,
/// a data query, a method run or a run's cancellation; and the only ones
/// that act on the repository are the run and the cancellation.
pub proof fn lemma_commands_read_only(q: Query)
    ensures
        ({
            let a = invocation_of(q).0;
            &&& a[0] == "--no-color"@
            &&& a.len() >= 2
            &&& (a[1] == "--version"@ || (a.len() >= 3 && (a[1] == "model"@ && (a[2] == "search"@ || a[2] == "get"@
                || a[2] == "type"@ || a[2] == "validate"@ || a[2] == "method"@ || a[2] == "cancel"@)) || (a[1]
                == "data"@ && (a[2] == "query"@ || a[2] == "list"@ || a[2] == "get"@ || a[2] == "versions"@))
                || (a[1] == "workflow"@ && (a[2] == "search"@ || a[2] == "get"@))))
            &&& ((a.len() >= 3 && a[1] == "model"@ && (a[2] == "method"@ || a[2] == "cancel"@)) <==> (q is Run
                || q is Cancel))
        }),
{
    reveal_strlit("--version");
    reveal_strlit("model");
    reveal_strlit("search");
    reveal_strlit("get");
    reveal_strlit("type");
    reveal_strlit("validate");
    reveal_strlit("method");
    reveal_strlit("cancel");
    reveal_strlit("data");
    reveal_strlit("workflow");
    reveal_strlit("--no-color");
    reveal_strlit("describe");
    reveal_strlit("query");
    reveal_strlit("list");
    reveal_strlit("versions");
    let a = invocation_of(q).0;
    assert(a[0] == "--no-color"@);
    assert("method"@[0] == 'm' && "cancel"@[0] == 'c' && "search"@[0] == 's' && "get"@[0] == 'g' && "type"@[0]
        == 't' && "validate"@[0] == 'v');
    assert("model"@ != "data"@ && "model"@ != "workflow"@ && "model"@ != "--version"@) by {
        assert("model"@[0] != "data"@[0]);
        assert("model"@[0] != "workflow"@[0]);
        assert("model"@[0] != "--version"@[0]);
    }
    match q {
        Query::Version => {},
        Query::Models => {},
        Query::Model(_) => {},
        Query::DescribeType(_) => {},
        Query::Validate { .. } => {},
        Query::Run { .. } => {},
        Query::Cancel(_) => {},
        Query::AllData => {},
        Query::Workflows => {},
        Query::Workflow(_) => {},
        Query::Data(_) => {},
        Query::LatestData { .. } => {},
        Query::DataVersions { .. } => {},
        Query::DataVersion { .. } => {},
    }
}

} // verus!

verus! {

/// The version `swamp --version` printed: its output decoded as UTF-8
/// (invalid sequences replaced) and trimmed.
pub fn version_text(output: &Vec<u8>) -> (r: String)
    ensures
        r@ == trim(utf8_lossy(output@)),
{
    let text = lossy_text(output);
    trimmed(text.as_str())
}

} // verus!
