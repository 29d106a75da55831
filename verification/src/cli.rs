//! The command line.

use crate::text;
use vstd::prelude::*;
use vstd::string::*;

verus! {

/// Whose login a command is about.
#[derive(Clone, Copy, Debug, PartialEq, Eq, Structural)]
pub enum LoginProvider {
    OpenAi,
    Xai,
}

/// A command that runs instead of the interface.
#[derive(Clone, Copy, Debug, PartialEq, Eq, Structural)]
pub enum CliCommand {
    Login { provider: LoginProvider, no_browser: bool, force: bool },
    Logout { provider: LoginProvider },
}

/// What the command line asks for.
#[derive(Clone, Copy, Debug, PartialEq, Eq, Structural)]
pub struct Args {
    /// Position of the argument that names the configuration file.
    pub config: Option<usize>,
    pub debug_log: bool,
    pub help: bool,
    pub version: bool,
    pub command: Option<CliCommand>,
}

/// The value of an outcome whose error is a text.
pub open spec fn outcome<T>(r: Result<T, String>) -> Result<T, Seq<char>> {
    match r {
        Ok(v) => Ok(v),
        Err(e) => Err(e@),
    }
}

/// The provider that a name stands for.
pub open spec fn login_provider(value: Seq<char>) -> Result<LoginProvider, Seq<char>> {
    if value == "openai"@ || value == "codex"@ || value == "chatgpt"@ {
        Ok(LoginProvider::OpenAi)
    } else if value == "xai"@ || value == "supergrok"@ || value == "grok"@ {
        Ok(LoginProvider::Xai)
    } else {
        Err("unknown auth provider `"@ + value + "`; supported: openai, xai"@)
    }
}

pub fn parse_login_provider(value: &str) -> (r: Result<LoginProvider, String>)
    ensures
        outcome(r) == login_provider(value@),
{
    if text::same(value, "openai") || text::same(value, "codex") || text::same(value, "chatgpt") {
        Ok(LoginProvider::OpenAi)
    } else if text::same(value, "xai") || text::same(value, "supergrok") || text::same(
        value,
        "grok",
    ) {
        Ok(LoginProvider::Xai)
    } else {
        Err(text::concat3("unknown auth provider `", value, "`; supported: openai, xai"))
    }
}

/// The arguments as texts; `None` for one that is not Unicode.
pub open spec fn arguments(v: Seq<Option<String>>) -> Seq<Option<Seq<char>>> {
    v.map_values(|a: Option<String>| text::opt_text(a))
}

/// The flags of a login from argument `i` to the end.
pub open spec fn login_flags(
    args: Seq<Option<Seq<char>>>,
    i: int,
    no_browser: bool,
    force: bool,
) -> Result<(bool, bool), Seq<char>>
    decreases args.len() - i,
{
    if i < 0 || i >= args.len() {
        Ok((no_browser, force))
    } else {
        match args[i] {
            None => Err("arguments must be valid UTF-8"@),
            Some(flag) => if flag == "--no-browser"@ {
                login_flags(args, i + 1, true, force)
            } else if flag == "--force"@ {
                login_flags(args, i + 1, no_browser, true)
            } else {
                Err("unknown login flag `"@ + flag + "`; try --help"@)
            },
        }
    }
}

/// What the arguments from `i` on ask for, given what those before them did.
/// The first thing that is wrong decides.
pub open spec fn parsed(args: Seq<Option<Seq<char>>>, i: int, so_far: Args) -> Result<
    Args,
    Seq<char>,
>
    decreases args.len() - i,
{
    if i < 0 || i >= args.len() {
        Ok(so_far)
    } else {
        match args[i] {
            None => Err("arguments must be valid UTF-8"@),
            Some(a) => if a == "--config"@ {
                if i + 1 >= args.len() {
                    Err("--config requires a path"@)
                } else {
                    parsed(args, i + 2, Args { config: Some((i + 1) as usize), ..so_far })
                }
            } else if a == "--debug-log"@ {
                parsed(args, i + 1, Args { debug_log: true, ..so_far })
            } else if a == "--help"@ || a == "-h"@ {
                parsed(args, i + 1, Args { help: true, ..so_far })
            } else if a == "--version"@ || a == "-V"@ {
                parsed(args, i + 1, Args { version: true, ..so_far })
            } else if a == "login"@ {
                if i + 1 >= args.len() || args[i + 1] is None {
                    Err(
                        "login requires a provider; try `lam-agent login openai` or `lam-agent login xai`"@,
                    )
                } else {
                    match login_flags(args, i + 2, false, false) {
                        Err(e) => Err(e),
                        Ok((no_browser, force)) => match login_provider(args[i + 1]->0) {
                            Err(e) => Err(e),
                            Ok(provider) => Ok(
                                Args {
                                    command: Some(
                                        CliCommand::Login { provider, no_browser, force },
                                    ),
                                    ..so_far
                                },
                            ),
                        },
                    }
                }
            } else if a == "logout"@ {
                if i + 1 >= args.len() || args[i + 1] is None {
                    Err(
                        "logout requires a provider; try `lam-agent logout openai` or `lam-agent logout xai`"@,
                    )
                } else {
                    match login_provider(args[i + 1]->0) {
                        Err(e) => Err(e),
                        Ok(provider) => parsed(
                            args,
                            i + 2,
                            Args { command: Some(CliCommand::Logout { provider }), ..so_far },
                        ),
                    }
                }
            } else {
                Err("unknown argument `"@ + a + "`; try --help"@)
            },
        }
    }
}

fn parse_flags(args: &Vec<Option<String>>, from: usize) -> (r: Result<(bool, bool), String>)
    requires
        from <= args@.len(),
    ensures
        outcome(r) == login_flags(arguments(args@), from as int, false, false),
{
    let ghost all = arguments(args@);
    let mut no_browser = false;
    let mut force = false;
    let mut i: usize = from;
    proof {
        assert(all.len() == args@.len());
    }
    while i < args.len()
        invariant
            i <= args@.len(),
            all == arguments(args@),
            all.len() == args@.len(),
            login_flags(all, from as int, false, false) == login_flags(
                all,
                i as int,
                no_browser,
                force,
            ),
        decreases args@.len() - i,
    {
        proof {
            assert(all[i as int] == text::opt_text(args@[i as int]));
        }
        match &args[i] {
            None => {
                return Err("arguments must be valid UTF-8".to_owned());
            },
            Some(flag) => {
                if text::same(flag.as_str(), "--no-browser") {
                    no_browser = true;
                } else if text::same(flag.as_str(), "--force") {
                    force = true;
                } else {
                    return Err(
                        text::concat3("unknown login flag `", flag.as_str(), "`; try --help"),
                    );
                }
            },
        }
        i += 1;
    }
    Ok((no_browser, force))
}

impl Args {
    /// Nothing asked for.
    pub open spec fn none() -> Args {
        Args { config: None, debug_log: false, help: false, version: false, command: None }
    }

    /// Reads the arguments behind the program's name.
    pub fn parse(args: &Vec<Option<String>>) -> (r: Result<Self, String>)
        ensures
            outcome(r) == parsed(arguments(args@), 0, Args::none()),
    {
        let ghost all = arguments(args@);
        let count: usize = args.len();
        let mut out = Args {
            config: None,
            debug_log: false,
            help: false,
            version: false,
            command: None,
        };
        let mut i: usize = 0;
        proof {
            assert(all.len() == args@.len());
        }
        while i < count
            invariant
                i <= count,
                count == args@.len(),
                all == arguments(args@),
                all.len() == args@.len(),
                parsed(all, 0, Args::none()) == parsed(all, i as int, out),
            decreases count - i,
        {
            proof {
                assert(all[i as int] == text::opt_text(args@[i as int]));
                if i + 1 < count {
                    assert(all[i + 1] == text::opt_text(args@[i + 1]));
                }
            }
            let argument = match &args[i] {
                None => {
                    return Err("arguments must be valid UTF-8".to_owned());
                },
                Some(a) => a.as_str(),
            };
            if text::same(argument, "--config") {
                if i + 1 >= count {
                    return Err("--config requires a path".to_owned());
                }
                out.config = Some(i + 1);
                i += 2;
            } else if text::same(argument, "--debug-log") {
                out.debug_log = true;
                i += 1;
            } else if text::same(argument, "--help") || text::same(argument, "-h") {
                out.help = true;
                i += 1;
            } else if text::same(argument, "--version") || text::same(argument, "-V") {
                out.version = true;
                i += 1;
            } else if text::same(argument, "login") {
                if i + 1 >= count {
                    return Err(
                        "login requires a provider; try `lam-agent login openai` or `lam-agent login xai`".to_owned(),
                    );
                }
                let name = match &args[i + 1] {
                    None => {
                        return Err(
                            "login requires a provider; try `lam-agent login openai` or `lam-agent login xai`".to_owned(),
                        );
                    },
                    Some(name) => name.as_str(),
                };
                let (no_browser, force) = match parse_flags(args, i + 2) {
                    Err(e) => {
                        return Err(e);
                    },
                    Ok(flags) => flags,
                };
                match parse_login_provider(name) {
                    Err(e) => {
                        return Err(e);
                    },
                    Ok(provider) => {
                        out.command = Some(CliCommand::Login { provider, no_browser, force });
                    },
                }
                return Ok(out);
            } else if text::same(argument, "logout") {
                if i + 1 >= count {
                    return Err(
                        "logout requires a provider; try `lam-agent logout openai` or `lam-agent logout xai`".to_owned(),
                    );
                }
                match &args[i + 1] {
                    None => {
                        return Err(
                            "logout requires a provider; try `lam-agent logout openai` or `lam-agent logout xai`".to_owned(),
                        );
                    },
                    Some(name) => match parse_login_provider(name.as_str()) {
                        Err(e) => {
                            return Err(e);
                        },
                        Ok(provider) => {
                            out.command = Some(CliCommand::Logout { provider });
                        },
                    },
                }
                i += 2;
            } else {
                return Err(text::concat3("unknown argument `", argument, "`; try --help"));
            }
        }
        Ok(out)
    }
}

} // verus!
