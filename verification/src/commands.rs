use vstd::prelude::*;
use vstd::string::StrSliceExecFns;
use vstd::string::StringExecFns;

use crate::config::{deep_keys, key_error_message, key_offender, Key, KeyError, Table};
use crate::config_walker::{
    resolve_error_message, resolve_spec, ConfigWalker, ResolveErrSpec, ResolveError,
};
use crate::current_env::{
    clear_commands_spec, encode_state, state_vars, CurrentEnv, StateError,
};
use crate::shell::{set_var_spec, Shell};
use crate::strutil;
use crate::strutil::{join_seqs, split_chars};

verus! {

/// Spec-level image of a failed transition.
pub enum SetErrSpec {
    State,
    Key { ch: char },
    Resolve(ResolveErrSpec),
}

/// A transition failed: the sentinel variable was malformed, a path
/// segment held a reserved character, or the path did not resolve.
#[derive(Debug)]
pub enum SetError {
    State(StateError),
    Key(KeyError),
    Resolve(ResolveError),
}

impl View for SetError {
    type V = SetErrSpec;

    open spec fn view(&self) -> SetErrSpec {
        match self {
            SetError::State(_) => SetErrSpec::State,
            SetError::Key(e) => SetErrSpec::Key { ch: e.ch },
            SetError::Resolve(e) => SetErrSpec::Resolve(e@),
        }
    }
}

/// The description of a failed transition, as it is printed.
pub open spec fn set_error_message(e: SetErrSpec) -> Seq<char> {
    match e {
        SetErrSpec::State => "Invalid ENVSWITCH_ENV variable; please inspect and clear it"@,
        SetErrSpec::Key { ch } => key_error_message(ch),
        SetErrSpec::Resolve(re) => resolve_error_message(re),
    }
}

impl SetError {
    /// A human-readable description of the failure.
    pub fn message(&self) -> (m: String)
        ensures
            m@ == set_error_message(self@),
    {
        match self {
            SetError::State(e) => e.message(),
            SetError::Key(e) => e.message(),
            SetError::Resolve(e) => e.message(),
        }
    }
}

/// The first reserved character found in any segment, segments checked
/// in order.
pub open spec fn segments_offender(segs: Seq<Seq<char>>) -> Option<char>
    decreases segs.len(),
{
    if segs.len() == 0 {
        None
    } else {
        match key_offender(segs[0]) {
            Some(c) => Some(c),
            None => segments_offender(segs.drop_first()),
        }
    }
}

/// What a successful transition prints: the shell statements for the
/// calling shell to evaluate, and the summary line.
#[derive(Debug)]
pub struct SetOutcome {
    pub commands: Vec<String>,
    pub message: String,
}

/// The transition for `env` against `t`, given the tracked variable
/// names `old_vars` of the previous state: clear statements for the old
/// names, then the sentinel update, then one export per effective
/// variable; the summary names the environment and its variables.
pub open spec fn set_spec_with_old(
    t: Table,
    env: Seq<char>,
    sh: Shell,
    old_vars: Seq<Seq<char>>,
) -> Result<(Seq<Seq<char>>, Seq<char>), SetErrSpec> {
    let segs = split_chars(env, '.');
    match segments_offender(segs) {
        Some(c) => Err(SetErrSpec::Key { ch: c }),
        None => match resolve_spec(Seq::<(Seq<char>, Seq<char>)>::empty(), t, segs) {
            Err(e) => Err(SetErrSpec::Resolve(e)),
            Ok(vals) => {
                let names = vals.map_values(|p: (Seq<char>, Seq<char>)| p.0);
                let cmds = clear_commands_spec(sh, old_vars).push(
                    set_var_spec(sh, "ENVSWITCH_ENV"@, encode_state(env, names)),
                ) + vals.map_values(|p: (Seq<char>, Seq<char>)| set_var_spec(sh, p.0, p.1));
                let variables = join_seqs(names, seq![' ']);
                let message = if env.len() == 0 && variables.len() == 0 {
                    "Environment cleared"@
                } else {
                    "Environment set: "@ + env + seq![' '] + variables
                };
                Ok((cmds, message))
            },
        },
    }
}

/// The full transition, starting from the raw sentinel value: a present
/// sentinel without `:` is malformed; otherwise the names it tracks are
/// cleared and the transition for `env` is computed.
pub open spec fn set_spec(
    t: Table,
    env: Seq<char>,
    sh: Shell,
    sentinel: Option<Seq<char>>,
) -> Result<(Seq<Seq<char>>, Seq<char>), SetErrSpec> {
    match sentinel {
        None => set_spec_with_old(t, env, sh, Seq::<Seq<char>>::empty()),
        Some(sv) => if sv.contains(':') {
            set_spec_with_old(t, env, sh, state_vars(sv))
        } else {
            Err(SetErrSpec::State)
        },
    }
}

/// Computes the transition to environment `env`: decodes the previous
/// state from the raw sentinel value, validates and resolves the dotted
/// path against `config`, and returns the statements to print and the
/// summary line, or the failure that stopped the transition.
#[verifier::loop_isolation(false)]
pub fn set_env(config: &Table, env: &str, shell: &Shell, sentinel: Option<&str>) -> (r: Result<
    SetOutcome,
    SetError,
>)
    ensures
        match r {
            Ok(out) => set_spec(*config, env@, *shell, sentinel.deep_view()) matches Ok(pair)
                && pair.0 == out.commands.deep_view() && pair.1 == out.message@,
            Err(e) => set_spec(*config, env@, *shell, sentinel.deep_view()) matches Err(se)
                && se == e@,
        },
{
    let current = match CurrentEnv::new(sentinel) {
        Ok(ce) => ce,
        Err(e) => {
            return Err(SetError::State(e));
        },
    };
    let ghost old_vars = current.vars.deep_view();
    let segs = strutil::split_str(env, '.');
    let n = segs.len();
    let mut keys: Vec<Key> = Vec::new();
    let mut i: usize = 0;
    proof {
        assert(segs.deep_view().skip(0) =~= segs.deep_view());
    }
    while i < n
        invariant
            i <= n,
            n == segs@.len(),
            segs.deep_view() == split_chars(env@, '.'),
            keys.deep_view() == segs.deep_view().subrange(0, i as int),
            segments_offender(segs.deep_view().skip(i as int)) == segments_offender(
                segs.deep_view(),
            ),
        decreases n - i,
    {
        proof {
            assert(segs.deep_view().skip(i as int)[0] == segs.deep_view()[i as int]);
            assert(segs.deep_view().skip(i as int).drop_first() =~= segs.deep_view().skip(i + 1));
        }
        let ghost keys0 = keys.deep_view();
        match Key::parse(segs[i].clone()) {
            Ok(k) => {
                keys.push(k);
                proof {
                    assert(keys.deep_view() =~= keys0.push(k@));
                    assert(keys.deep_view() =~= segs.deep_view().subrange(0, i + 1));
                }
            },
            Err(e) => {
                proof {
                    assert(segments_offender(segs.deep_view()) == Some(e.ch));
                    match sentinel {
                        Some(s) => {
                            assert(s@.contains(':'));
                            assert(sentinel.deep_view() == Some(s@));
                        },
                        None => {
                            assert(sentinel.deep_view() matches Option::<Seq<char>>::None);
                        },
                    }
                }
                return Err(SetError::Key(e));
            },
        }
        i = i + 1;
    }
    proof {
        assert(segs.deep_view().skip(n as int) =~= Seq::<Seq<char>>::empty());
        assert(keys.deep_view() =~= segs.deep_view());
    }
    let walker = match ConfigWalker::new(config, &keys) {
        Ok(w) => w,
        Err(e) => {
            return Err(SetError::Resolve(e));
        },
    };
    let mut commands = current.clear_commands(shell);
    let ghost clears = commands.deep_view();
    let names = walker.variable_names();
    let sentinel_cmd = current.set(shell, env, &names);
    commands.push(sentinel_cmd);
    proof {
        assert(commands.deep_view() =~= clears.push(sentinel_cmd@));
    }
    let ghost with_sentinel = commands.deep_view();
    let mut sets = walker.set_commands(shell);
    let ghost sets_ghost = sets.deep_view();
    commands.append(&mut sets);
    proof {
        assert(commands.deep_view() =~= with_sentinel + sets_ghost);
    }
    let variables = walker.variables();
    let message: String = if env.is_empty() && variables.as_str().is_empty() {
        String::from_str("Environment cleared")
    } else {
        let mut message = String::new();
        message.append("Environment set: ");
        message.append(env);
        message.append(" ");
        message.append(variables.as_str());
        message
    };
    proof {
        reveal_strlit(" ");
        assert(" "@ =~= seq![' ']);
        if !(env@.len() == 0 && variables@.len() == 0) {
            assert(message@ =~= "Environment set: "@ + env@ + seq![' '] + variables@);
        }
    }
    Ok(SetOutcome { commands, message })
}

/// Whether `prefix` starts `k`.
pub open spec fn is_prefix_of(prefix: Seq<char>, k: Seq<char>) -> bool {
    prefix.len() <= k.len() && k.subrange(0, prefix.len() as int) == prefix
}

/// The elements of `keys` that start with `prefix`, in order.
pub open spec fn matching_keys(keys: Seq<Seq<char>>, prefix: Seq<char>) -> Seq<Seq<char>>
    decreases keys.len(),
{
    if keys.len() == 0 {
        Seq::empty()
    } else {
        let init = matching_keys(keys.drop_last(), prefix);
        if is_prefix_of(prefix, keys.last()) {
            init.push(keys.last())
        } else {
            init
        }
    }
}

/// The completions offered for a partially typed environment name: the
/// dotted paths of the document's tables that start with it; with more
/// than one word already typed there is nothing left to complete.
pub open spec fn complete_spec(t: Table, env_args: Seq<Seq<char>>) -> Seq<Seq<char>> {
    if env_args.len() > 1 {
        Seq::empty()
    } else {
        let prefix: Seq<char> = if env_args.len() == 1 {
            env_args[0]
        } else {
            Seq::empty()
        };
        matching_keys(crate::config::deep_keys_table(t, Seq::<char>::empty()), prefix)
    }
}

/// Lists the completions for the first typed word of `env_args` (or for
/// the empty word when none is typed).
pub fn complete(config: &Table, env_args: &Vec<String>) -> (r: Vec<String>)
    ensures
        r.deep_view() == complete_spec(*config, env_args.deep_view()),
{
    if env_args.len() > 1 {
        let empty: Vec<String> = Vec::new();
        proof {
            assert(empty.deep_view() =~= complete_spec(*config, env_args.deep_view()));
        }
        return empty;
    }
    let prefix: &str = if env_args.len() == 1 {
        env_args[0].as_str()
    } else {
        ""
    };
    proof {
        reveal_strlit("");
        if env_args@.len() != 1 {
            assert(prefix@ =~= Seq::<char>::empty());
        }
    }
    let keys = deep_keys(config);
    let kn = keys.len();
    let mut out: Vec<String> = Vec::new();
    let mut i: usize = 0;
    proof {
        assert(keys.deep_view().subrange(0, 0) =~= Seq::<Seq<char>>::empty());
        assert(out.deep_view() =~= matching_keys(keys.deep_view().subrange(0, 0), prefix@));
    }
    while i < kn
        invariant
            i <= kn,
            kn == keys@.len(),
            keys.deep_view() == crate::config::deep_keys_table(*config, Seq::<char>::empty()),
            out.deep_view() == matching_keys(keys.deep_view().subrange(0, i as int), prefix@),
        decreases kn - i,
    {
        proof {
            assert(keys.deep_view().subrange(0, i + 1).drop_last() =~= keys.deep_view().subrange(
                0,
                i as int,
            ));
            assert(keys.deep_view().subrange(0, i + 1).last() == keys.deep_view()[i as int]);
        }
        let ghost out0 = out.deep_view();
        if strutil::str_starts_with(keys[i].as_str(), prefix) {
            out.push(keys[i].clone());
            proof {
                assert(out.deep_view() =~= out0.push(keys.deep_view()[i as int]));
            }
        }
        i = i + 1;
    }
    proof {
        assert(keys.deep_view().subrange(0, kn as int) =~= keys.deep_view());
    }
    out
}

} // verus!
