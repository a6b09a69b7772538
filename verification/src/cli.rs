//! The control CLI's argument model, and its translation into a command
//! context: the verb, the `key=value` parameter and metadata lists, and
//! the cross-cutting flags.

use vstd::prelude::*;

use crate::command::{meta_of, param_of, CommandContext};
use crate::error::CommandError;
use crate::json::{JsonValue, JsonView};

verus! {

/// How the CLI renders a result.
#[derive(Debug, Clone, Copy, PartialEq, Eq, Structural)]
pub enum OutputFormat {
    Standard,
    Json,
    Yaml,
}

/// The arguments every verb shares.
pub struct CommonArgs {
    /// The target resource path.
    pub resource: Option<String>,
    /// The resource name, if given separately.
    pub name: Option<String>,
    /// Parameters given as `key=value`; a later entry wins.
    pub parameters: Vec<(String, String)>,
    /// Metadata given as `key=value`; a later entry wins.
    pub metadata: Vec<(String, String)>,
    /// The namespace; the caller defaults it to `default`.
    pub namespace: String,
    /// An input file for the command, if any.
    pub file: Option<String>,
    /// Whether to ignore warnings.
    pub force: bool,
    /// Whether to print verbose output.
    pub verbose: bool,
}

/// A CLI invocation: one verb with its arguments.
pub enum Command {
    Get(CommonArgs),
    List(CommonArgs),
    SetValue(CommonArgs),
    Delete(CommonArgs),
    Version(CommonArgs),
    Echo(CommonArgs),
}

/// The whole command line.
pub struct Cli {
    /// The verb to run.
    pub command: Command,
    /// Print output in indented form.
    pub pretty: bool,
    /// The output format.
    pub output: OutputFormat,
}

/// Splits a `key=value` argument at its first `=`.
pub fn parse_key_val(s: &str) -> (r: Result<(String, String), CommandError>)
    ensures
        r is Ok <==> exists|i: int| 0 <= i < s@.len() && (#[trigger] s@[i]) == '=',
        r is Ok ==> exists|i: int|
            {
                &&& 0 <= i < s@.len()
                &&& (#[trigger] s@[i]) == '='
                &&& forall|j: int| 0 <= j < i ==> s@[j] != '='
                &&& r.unwrap().0@ == s@.subrange(0, i)
                &&& r.unwrap().1@ == s@.subrange(i + 1, s@.len() as int)
            },
        r is Err ==> r == Err::<(String, String), CommandError>(CommandError::InvalidInput),
{
    let n = s.unicode_len();
    let mut i: usize = 0;
    while i < n
        invariant
            i <= n == s@.len(),
            forall|j: int| 0 <= j < i ==> s@[j] != '=',
        decreases n - i,
    {
        if s.get_char(i) == '=' {
            let k = s.substring_char(0, i);
            let v = s.substring_char(i + 1, n);
            return Ok((k.to_owned(), v.to_owned()));
        }
        i += 1;
    }
    Err(CommandError::InvalidInput)
}

/// The last value listed under `n`, if any: a later `key=value` argument
/// wins.
pub open spec fn last_val(pairs: Seq<(String, String)>, n: Seq<char>) -> Option<Seq<char>>
    decreases pairs,
{
    if pairs.len() == 0 {
        None
    } else if pairs.last().0@ == n {
        Some(pairs.last().1@)
    } else {
        last_val(pairs.drop_last(), n)
    }
}

/// The verb a CLI command dispatches.
pub open spec fn verb_of(cmd: Command) -> Seq<char> {
    match cmd {
        Command::Get(_) => "get"@,
        Command::List(_) => "list"@,
        Command::SetValue(_) => "set"@,
        Command::Delete(_) => "delete"@,
        Command::Version(_) => "version"@,
        Command::Echo(_) => "echo"@,
    }
}

/// The arguments a CLI command carries.
pub open spec fn args_of(cmd: Command) -> CommonArgs {
    match cmd {
        Command::Get(a) => a,
        Command::List(a) => a,
        Command::SetValue(a) => a,
        Command::Delete(a) => a,
        Command::Version(a) => a,
        Command::Echo(a) => a,
    }
}

/// The parameter a built context carries under a name: the resource and
/// name arguments override the `key=value` list.
pub open spec fn cli_param(args: CommonArgs, n: Seq<char>) -> Option<JsonView> {
    if n == "resource"@ && args.resource is Some {
        Some(JsonView::Str(args.resource.unwrap()@))
    } else if n == "name"@ && args.name is Some {
        Some(JsonView::Str(args.name.unwrap()@))
    } else {
        match last_val(args.parameters@, n) {
            Some(v) => Some(JsonView::Str(v)),
            None => None,
        }
    }
}

/// The characters of a boolean flag.
pub open spec fn bool_chars(b: bool) -> Seq<char> {
    if b {
        "true"@
    } else {
        "false"@
    }
}

/// The metadata a built context carries under a name: the namespace, the
/// flags and the file override the `key=value` list.
pub open spec fn cli_meta(args: CommonArgs, n: Seq<char>) -> Option<Seq<char>> {
    if n == "file"@ && args.file is Some {
        Some(args.file.unwrap()@)
    } else if n == "verbose"@ {
        Some(bool_chars(args.verbose))
    } else if n == "force"@ {
        Some(bool_chars(args.force))
    } else if n == "namespace"@ {
        Some(args.namespace@)
    } else {
        last_val(args.metadata@, n)
    }
}

/// The CLI metadata names are pairwise distinct.
proof fn lemma_cli_names_distinct()
    ensures
        "file"@ != "verbose"@,
        "file"@ != "force"@,
        "file"@ != "namespace"@,
        "verbose"@ != "force"@,
        "verbose"@ != "namespace"@,
        "force"@ != "namespace"@,
        "resource"@ != "name"@,
{
    reveal_strlit("file");
    reveal_strlit("verbose");
    reveal_strlit("force");
    reveal_strlit("namespace");
    reveal_strlit("resource");
    reveal_strlit("name");
    assert("file"@.len() == 4);
    assert("verbose"@.len() == 7);
    assert("force"@.len() == 5);
    assert("namespace"@.len() == 9);
    assert("resource"@.len() == 8);
    assert("name"@.len() == 4);
}

impl Command {
    /// Builds the command context this invocation stands for: the verb,
    /// the parameters with `resource` and `name` folded in, and the
    /// metadata with the namespace, flags and file folded in.
    pub fn into_context(self, activity_id: String) -> (ctx: CommandContext)
        ensures
            ctx.command_name@ == verb_of(self),
            ctx.activity_id@ == activity_id@,
            !ctx.cancelled,
            forall|n: Seq<char>| #[trigger] param_of(ctx, n) == cli_param(args_of(self), n),
            forall|n: Seq<char>| #[trigger] meta_of(ctx, n) == cli_meta(args_of(self), n),
    {
        let ghost this = self;
        let (verb, args): (&'static str, CommonArgs) = match self {
            Command::Echo(a) => ("echo", a),
            Command::Get(a) => ("get", a),
            Command::List(a) => ("list", a),
            Command::Delete(a) => ("delete", a),
            Command::SetValue(a) => ("set", a),
            Command::Version(a) => ("version", a),
        };
        let ghost gargs = args;
        let mut ctx = CommandContext::new(String::from_str(verb), activity_id);
        let pn = args.parameters.len();
        let mut i: usize = 0;
        while i < pn
            invariant
                i <= pn == args.parameters@.len(),
                args.parameters@ == gargs.parameters@,
                ctx.command_name@ == verb_of(this),
                ctx.activity_id@ == activity_id@,
                !ctx.cancelled,
                ctx.metadata@ =~= Seq::<(String, String)>::empty(),
                forall|n: Seq<char>|
                    #[trigger] param_of(ctx, n) == match last_val(
                        gargs.parameters@.take(i as int),
                        n,
                    ) {
                        Some(v) => Some(JsonView::Str(v)),
                        None => None::<JsonView>,
                    },
            decreases pn - i,
        {
            let k = args.parameters[i].0.clone();
            let v = args.parameters[i].1.clone();
            let ghost before = ctx;
            ctx.set_param(k, JsonValue::Str(v));
            proof {
                let p = gargs.parameters@[i as int];
                let t1 = gargs.parameters@.take(i + 1 as int);
                assert(t1 =~= gargs.parameters@.take(i as int).push(p));
                assert(t1.last() == p);
                assert(t1.drop_last() =~= gargs.parameters@.take(i as int));
                assert forall|n: Seq<char>| true implies #[trigger] param_of(ctx, n) == (
                    match last_val(t1, n) {
                        Some(w) => Some(JsonView::Str(w)),
                        None => None::<JsonView>,
                    }
                ) by {
                    if n == p.0@ {
                        assert(param_of(ctx, n) == Some(JsonView::Str(p.1@)));
                        assert(last_val(t1, n) == Some(p.1@));
                    } else {
                        assert(param_of(ctx, n) == param_of(before, n));
                        assert(last_val(t1, n) == last_val(t1.drop_last(), n));
                    }
                }
            }
            i += 1;
        }
        proof {
            assert(gargs.parameters@.take(pn as int) =~= gargs.parameters@);
        }
        let ghost after_pairs = ctx;
        if let Some(res) = args.resource {
            ctx.set_param(String::from_str("resource"), JsonValue::Str(res));
        }
        let ghost after_res = ctx;
        if let Some(name) = args.name {
            ctx.set_param(String::from_str("name"), JsonValue::Str(name));
        }
        proof {
            lemma_cli_names_distinct();
            assert forall|n: Seq<char>| true implies #[trigger] param_of(ctx, n) == cli_param(
                gargs,
                n,
            ) by {
                if n == "resource"@ {
                    if gargs.resource is Some {
                        assert(param_of(after_res, n) == Some(
                            JsonView::Str(gargs.resource.unwrap()@),
                        ));
                        assert(param_of(ctx, n) == param_of(after_res, n));
                    } else {
                        assert(param_of(after_res, n) == param_of(after_pairs, n));
                        assert(param_of(ctx, n) == param_of(after_res, n));
                    }
                } else if n == "name"@ {
                    if gargs.name is Some {
                        assert(param_of(ctx, n) == Some(JsonView::Str(gargs.name.unwrap()@)));
                    } else {
                        assert(param_of(ctx, n) == param_of(after_pairs, n));
                    }
                } else {
                    assert(param_of(after_res, n) == param_of(after_pairs, n));
                    assert(param_of(ctx, n) == param_of(after_res, n));
                }
            }
        }
        let mn = args.metadata.len();
        let mut j: usize = 0;
        while j < mn
            invariant
                j <= mn == args.metadata@.len(),
                args.metadata@ == gargs.metadata@,
                ctx.command_name@ == verb_of(this),
                ctx.activity_id@ == activity_id@,
                !ctx.cancelled,
                forall|n: Seq<char>| #[trigger] param_of(ctx, n) == cli_param(gargs, n),
                forall|n: Seq<char>|
                    #[trigger] meta_of(ctx, n) == last_val(gargs.metadata@.take(j as int), n),
            decreases mn - j,
        {
            let k = args.metadata[j].0.clone();
            let v = args.metadata[j].1.clone();
            let ghost before = ctx;
            ctx.set_metadata(k, v);
            proof {
                assert forall|n: Seq<char>| true implies #[trigger] param_of(ctx, n) == cli_param(
                    gargs,
                    n,
                ) by {
                    assert(ctx.parameters@ == before.parameters@);
                    assert(param_of(ctx, n) == param_of(before, n));
                }
                let p = gargs.metadata@[j as int];
                let t1 = gargs.metadata@.take(j + 1 as int);
                assert(t1 =~= gargs.metadata@.take(j as int).push(p));
                assert(t1.last() == p);
                assert(t1.drop_last() =~= gargs.metadata@.take(j as int));
                assert forall|n: Seq<char>| true implies #[trigger] meta_of(ctx, n) == last_val(
                    t1,
                    n,
                ) by {
                    if n == p.0@ {
                        assert(meta_of(ctx, n) == Some(p.1@));
                        assert(last_val(t1, n) == Some(p.1@));
                    } else {
                        assert(meta_of(ctx, n) == meta_of(before, n));
                        assert(last_val(t1, n) == last_val(t1.drop_last(), n));
                    }
                }
            }
            j += 1;
        }
        proof {
            assert(gargs.metadata@.take(mn as int) =~= gargs.metadata@);
        }
        let ghost after_meta = ctx;
        ctx.set_metadata(String::from_str("namespace"), args.namespace);
        let ghost after_ns = ctx;
        let force_str = if args.force {
            "true"
        } else {
            "false"
        };
        ctx.set_metadata(String::from_str("force"), String::from_str(force_str));
        let ghost after_force = ctx;
        let verbose_str = if args.verbose {
            "true"
        } else {
            "false"
        };
        ctx.set_metadata(String::from_str("verbose"), String::from_str(verbose_str));
        let ghost after_verbose = ctx;
        if let Some(file) = args.file {
            ctx.set_metadata(String::from_str("file"), file);
        }
        proof {
            lemma_cli_names_distinct();
            assert forall|n: Seq<char>| true implies #[trigger] param_of(ctx, n) == cli_param(
                gargs,
                n,
            ) by {
                assert(ctx.parameters@ == after_meta.parameters@);
                assert(param_of(ctx, n) == param_of(after_meta, n));
            }
            assert forall|n: Seq<char>| true implies #[trigger] meta_of(ctx, n) == cli_meta(
                gargs,
                n,
            ) by {
                if n == "file"@ {
                    if gargs.file is Some {
                        assert(meta_of(ctx, n) == Some(gargs.file.unwrap()@));
                    } else {
                        assert(meta_of(ctx, n) == meta_of(after_verbose, n));
                        assert(meta_of(after_verbose, n) == meta_of(after_force, n));
                        assert(meta_of(after_force, n) == meta_of(after_ns, n));
                        assert(meta_of(after_ns, n) == meta_of(after_meta, n));
                    }
                } else if n == "verbose"@ {
                    assert(meta_of(after_verbose, n) == Some(bool_chars(gargs.verbose)));
                    assert(meta_of(ctx, n) == meta_of(after_verbose, n));
                } else if n == "force"@ {
                    assert(meta_of(after_force, n) == Some(bool_chars(gargs.force)));
                    assert(meta_of(after_verbose, n) == meta_of(after_force, n));
                    assert(meta_of(ctx, n) == meta_of(after_verbose, n));
                } else if n == "namespace"@ {
                    assert(meta_of(after_ns, n) == Some(gargs.namespace@));
                    assert(meta_of(after_force, n) == meta_of(after_ns, n));
                    assert(meta_of(after_verbose, n) == meta_of(after_force, n));
                    assert(meta_of(ctx, n) == meta_of(after_verbose, n));
                } else {
                    assert(meta_of(after_ns, n) == meta_of(after_meta, n));
                    assert(meta_of(after_force, n) == meta_of(after_ns, n));
                    assert(meta_of(after_verbose, n) == meta_of(after_force, n));
                    assert(meta_of(ctx, n) == meta_of(after_verbose, n));
                }
            }
        }
        ctx
    }
}

} // verus!
