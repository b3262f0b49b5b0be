//! What is asked for on the command line where a machine is added.
use crate::i18n::Lang;
use crate::text;
use vstd::prelude::*;

verus! {

// ── the command line ────────────────────────────────────────────────────────

/// What the arguments say.
#[derive(Debug)]
pub struct AddArgs {
    pub target: Option<String>,
    pub name: Option<String>,
    pub from: Option<String>,
}

/// What the arguments say, as values.
pub struct AddArgsView {
    pub target: Option<Seq<char>>,
    pub name: Option<Seq<char>>,
    pub from: Option<Seq<char>>,
}

impl View for AddArgs {
    type V = AddArgsView;

    open spec fn view(&self) -> AddArgsView {
        AddArgsView {
            target: text::opt_view(self.target),
            name: text::opt_view(self.name),
            from: text::opt_view(self.from),
        }
    }
}

/// The argument behind the one at `i`.
pub open spec fn behind(args: Seq<Seq<char>>, i: nat) -> Option<Seq<char>> {
    if i + 1 < args.len() {
        Some(args[i + 1int])
    } else {
        None
    }
}

/// The arguments from `i` on, on top of what was read before. `Err` is the first argument that is no
/// option. Of several that say the same thing the last one counts.
pub open spec fn read_args(args: Seq<Seq<char>>, i: nat, so_far: AddArgsView) -> Result<
    AddArgsView,
    Seq<char>,
>
    decreases args.len() + 1 - i,
{
    if i >= args.len() {
        Ok(so_far)
    } else {
        let a = args[i as int];
        if a == "--name"@ {
            read_args(args, i + 2, AddArgsView { name: behind(args, i), ..so_far })
        } else if a == "--from"@ {
            read_args(args, i + 2, AddArgsView { from: behind(args, i), ..so_far })
        } else {
            match (text::after_prefix(a, "--name="@), text::after_prefix(a, "--from="@)) {
                (Some(n), _) => read_args(args, i + 1, AddArgsView { name: Some(n), ..so_far }),
                (None, Some(p)) => read_args(
                    args,
                    i + 1,
                    AddArgsView { from: Some(p), ..so_far },
                ),
                (None, None) => if "-"@.is_prefix_of(a) {
                    Err(a)
                } else {
                    read_args(args, i + 1, AddArgsView { target: Some(a), ..so_far })
                },
            }
        }
    }
}

/// How the command is used.
pub open spec fn usage(lang: Lang) -> Seq<char> {
    lang.of(
        "usage: agentgw add-machine <ssh destination> [--name <name>] [--from <binary>]\n\nExample: agentgw add-machine user@host\nThe destination can be a ~/.ssh/config alias; keys and jump hosts come from your ssh config."@,
        "usage: agentgw add-machine <ssh先> [--name <名前>] [--from <バイナリ>]\n\n例: agentgw add-machine user@host\nssh 先は ~/.ssh/config の別名でも構いません(鍵も踏み台もそちらに任せます)。"@,
    )
}

/// A machine to add.
#[derive(Debug)]
pub struct Request {
    /// Where `ssh` leads.
    pub target: String,
    /// The name it goes by; its host name where there is none.
    pub name: Option<String>,
    /// The binary it is sent.
    pub from: Option<String>,
}

/// Reads the arguments. `Err` is what is said before the command ends with code 2.
pub fn parse_cli(args: &[String], lang: Lang) -> (r: Result<Request, String>)
    ensures
        ({
            let none = AddArgsView { target: None, name: None, from: None };
            match read_args(text::views(args@), 0, none) {
                Err(a) => r is Err && r->Err_0@ == lang.of(
                    "Unknown option: "@,
                    "知らない引数です: "@,
                ) + a,
                Ok(read) => match read.target {
                    None => r is Err && r->Err_0@ == usage(lang),
                    Some(t) => r is Ok && r->Ok_0.target@ == t && text::opt_view(r->Ok_0.name)
                        == read.name && text::opt_view(r->Ok_0.from) == read.from,
                },
            }
        }),
{
    let ghost all = text::views(args@);
    let ghost none = AddArgsView { target: None, name: None, from: None };
    let mut said: AddArgs = AddArgs { target: None, name: None, from: None };
    let n: usize = args.len();
    let mut i: usize = 0;
    while i < n
        invariant
            n == args@.len() == all.len(),
            all == text::views(args@),
            none == (AddArgsView { target: None, name: None, from: None }),
            read_args(all, 0, none) == read_args(all, i as nat, said@),
        decreases n - i,
    {
        let a: &str = args[i].as_str();
        assert(all[i as int] == a@);
        if text::same(a, "--name") || text::same(a, "--from") {
            let value: Option<String> = if i < n - 1 {
                assert(all[i + 1] == args@[i + 1]@);
                Some(args[i + 1].clone())
            } else {
                None
            };
            assert(text::opt_view(value) == behind(all, i as nat));
            if text::same(a, "--name") {
                said.name = value;
            } else {
                said.from = value;
            }
            if i < n - 1 {
                i = i + 2;
            } else {
                assert(read_args(all, (i + 2) as nat, said@) == Ok::<AddArgsView, Seq<char>>(
                    said@,
                ));
                i = n;
            }
            continue;
        }
        match text::strip_prefix(a, "--name=") {
            Some(name) => {
                said.name = Some(name);
            },
            None => match text::strip_prefix(a, "--from=") {
                Some(from) => {
                    said.from = Some(from);
                },
                None => {
                    if text::starts_with(a, "-") {
                        return Err(
                            text::cat(lang.pick("Unknown option: ", "知らない引数です: "), a),
                        );
                    }
                    said.target = Some(a.to_owned());
                },
            },
        }
        i = i + 1;
    }
    match said.target {
        Some(target) => Ok(Request { target, name: said.name, from: said.from }),
        None => Err(
            lang.pick(
                "usage: agentgw add-machine <ssh destination> [--name <name>] [--from <binary>]\n\nExample: agentgw add-machine user@host\nThe destination can be a ~/.ssh/config alias; keys and jump hosts come from your ssh config.",
                "usage: agentgw add-machine <ssh先> [--name <名前>] [--from <バイナリ>]\n\n例: agentgw add-machine user@host\nssh 先は ~/.ssh/config の別名でも構いません(鍵も踏み台もそちらに任せます)。",
            ).to_owned(),
        ),
    }
}

/// How the command ends: its code, and what it says, on the standard output for 0 and on the standard
/// error otherwise.
pub fn finish_cli(added: Result<String, String>) -> (r: (i32, String))
    ensures
        match added {
            Ok(msg) => r.0 == 0 && r.1@ == msg@,
            Err(why) => r.0 == 1 && r.1@ == "add-machine: "@ + why@,
        },
{
    match added {
        Ok(msg) => (0, msg),
        Err(why) => (1, text::cat("add-machine: ", why.as_str())),
    }
}

} // verus!
