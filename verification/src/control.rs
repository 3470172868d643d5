//! Decisions of the commands that manage the crawler process and the search
//! server: the replies they give and the options they are started with.
use vstd::prelude::*;
use crate::text::{
    chars_of, decimal, lit, parse_u32, parse_u32_exec, str_eq, trim, trim_exec, u64_to_decimal,
    views,
};

verus! {

/// What stopping the crawler does for the process id on record: whether a
/// signal is sent, and the reply.
pub open spec fn stop_reply_spec(pid: u32) -> (bool, Seq<char>) {
    if pid == 0 {
        (false, "No running process"@)
    } else {
        (true, "Stopping process "@ + decimal(pid as nat))
    }
}

pub fn stop_reply(pid: u32) -> (r: (bool, String))
    ensures
        (r.0, r.1@) == stop_reply_spec(pid),
{
    if pid == 0 {
        return (false, lit("No running process"));
    }
    let mut s = lit("Stopping process ");
    let d = u64_to_decimal(pid as u64);
    s.append(d.as_str());
    (true, s)
}

/// The reply of clearing the output of some site directories.
pub fn clear_output_message(removed: u32) -> (r: String)
    ensures
        r@ == "Cleared contents of "@ + decimal(removed as nat) + " directories"@,
{
    let mut s = lit("Cleared contents of ");
    let d = u64_to_decimal(removed as u64);
    s.append(d.as_str());
    s.append(" directories");
    s
}

/// The reply of deleting a site directory: not found, failed with the
/// removal's error, or deleted.
pub fn delete_site_reply(site_name: &str, found: bool, failure: Option<String>) -> (r: Result<
    String,
    String,
>)
    ensures
        !found ==> (r matches Err(e) && e@ == "Site directory not found"@),
        found && failure is Some ==> (r matches Err(e) && e@ == "Failed to delete "@ + site_name@
            + ": "@ + failure->0@),
        found && failure is None ==> (r matches Ok(m) && m@ == "Deleted "@ + site_name@),
{
    if !found {
        return Err(lit("Site directory not found"));
    }
    match failure {
        Some(f) => {
            let mut e = lit("Failed to delete ");
            e.append(site_name);
            e.append(": ");
            e.append(f.as_str());
            Err(e)
        },
        None => {
            let mut m = lit("Deleted ");
            m.append(site_name);
            Ok(m)
        },
    }
}

/// The process id a pid file holds: its trimmed text read as a `u32`.
pub fn pid_in_file(text: &str) -> (r: Option<u32>)
    ensures
        r == parse_u32(trim(text@)),
{
    let c = chars_of(text);
    let t = trim_exec(&c);
    parse_u32_exec(&t)
}

/// `str::parse::<u16>`.
pub open spec fn parse_u16(s: Seq<char>) -> Option<u16> {
    match parse_u32(s) {
        Some(v) => if v <= 0xFFFF {
            Some(v as u16)
        } else {
            None
        },
        None => None,
    }
}

/// How reading the server's arguments ends.
#[derive(Clone, Copy, PartialEq, Eq, Structural)]
pub enum ArgsEnd {
    /// All arguments read: the server runs.
    Run,
    /// `-h` or `--help`: the usage is shown and the program ends.
    Help,
    /// A port that is not a number: the program ends with an error.
    BadPort,
}

/// The options the search server is started with.
pub struct ServerArgs {
    pub port: u16,
    /// The arguments that were not understood, in order; each is reported.
    pub ignored: Vec<String>,
    pub end: ArgsEnd,
}

/// The server's arguments from position `i` on, with the port and ignored
/// arguments found so far: `-p`/`--port` takes the next argument as the port
/// (and is ignored as the last argument), `-h`/`--help` stops, anything else
/// is ignored.
pub open spec fn args_from(
    args: Seq<Seq<char>>,
    i: int,
    port: u16,
    ignored: Seq<Seq<char>>,
) -> (u16, Seq<Seq<char>>, ArgsEnd)
    decreases args.len() - i,
{
    if i < 0 || i >= args.len() {
        (port, ignored, ArgsEnd::Run)
    } else if args[i] == "-p"@ || args[i] == "--port"@ {
        if i + 1 < args.len() {
            match parse_u16(args[i + 1]) {
                Some(p) => args_from(args, i + 2, p, ignored),
                None => (port, ignored, ArgsEnd::BadPort),
            }
        } else {
            args_from(args, i + 1, port, ignored)
        }
    } else if args[i] == "-h"@ || args[i] == "--help"@ {
        (port, ignored, ArgsEnd::Help)
    } else {
        args_from(args, i + 1, port, ignored.push(args[i]))
    }
}

/// The options from the command line (`args[0]` is the program), starting
/// from port 18088.
pub open spec fn server_args_spec(args: Seq<Seq<char>>) -> (u16, Seq<Seq<char>>, ArgsEnd) {
    args_from(args, 1, 18088, Seq::empty())
}

fn parse_u16_exec(s: &str) -> (r: Option<u16>)
    ensures
        r == parse_u16(s@),
{
    let c = chars_of(s);
    match parse_u32_exec(&c) {
        Some(v) => if v <= 0xFFFF {
            Some(v as u16)
        } else {
            None
        },
        None => None,
    }
}

/// Reads the search server's command line.
pub fn server_args(args: &Vec<String>) -> (r: ServerArgs)
    ensures
        (r.port, views(r.ignored@), r.end) == server_args_spec(views(args@)),
{
    let ghost a = views(args@);
    let mut port: u16 = 18088;
    let mut ignored: Vec<String> = Vec::new();
    let mut i: usize = 1;
    assert(views(ignored@) =~= Seq::<Seq<char>>::empty());
    while i < args.len()
        invariant
            a == views(args@),
            1 <= i <= args.len() + 1,
            server_args_spec(a) == args_from(a, i as int, port, views(ignored@)),
        decreases args.len() + 1 - i,
    {
        assert(a[i as int] == args@[i as int]@);
        let arg = args[i].as_str();
        if str_eq(arg, "-p") || str_eq(arg, "--port") {
            if i + 1 < args.len() {
                assert(a[i + 1] == args@[i + 1]@);
                match parse_u16_exec(args[i + 1].as_str()) {
                    Some(p) => {
                        port = p;
                        i = i + 2;
                    },
                    None => {
                        return ServerArgs { port, ignored, end: ArgsEnd::BadPort };
                    },
                }
            } else {
                i = i + 1;
            }
        } else if str_eq(arg, "-h") || str_eq(arg, "--help") {
            return ServerArgs { port, ignored, end: ArgsEnd::Help };
        } else {
            let ghost before = views(ignored@);
            ignored.push(args[i].clone());
            assert(views(ignored@) =~= before.push(a[i as int]));
            i = i + 1;
        }
    }
    ServerArgs { port, ignored, end: ArgsEnd::Run }
}


/// Without a `-p`/`--port` argument the server keeps its port.
pub proof fn lemma_default_port(args: Seq<Seq<char>>, i: int, port: u16, ignored: Seq<Seq<char>>)
    requires
        forall|j: int| 0 <= j < args.len() ==> #[trigger] args[j] != "-p"@ && args[j] != "--port"@,
    ensures
        args_from(args, i, port, ignored).0 == port,
    decreases args.len() - i,
{
    if 0 <= i < args.len() {
        if !(args[i] == "-h"@ || args[i] == "--help"@) {
            lemma_default_port(args, i + 1, port, ignored.push(args[i]));
        }
    }
}

} // verus!
