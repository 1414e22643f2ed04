use vstd::prelude::*;
use vstd::string::StrSliceExecFns;
use vstd::string::StringExecFns;

use crate::shell::{clear_var_spec, set_var_spec, Shell};
use crate::strutil;
use crate::strutil::{find_char, join_seqs, split_chars};

verus! {

/// Name of the sentinel environment variable that remembers which
/// environment is currently active and which variables it set.
pub fn envswitch_var() -> (s: &'static str)
    ensures
        s@ == "ENVSWITCH_ENV"@,
{
    "ENVSWITCH_ENV"
}

/// The sentinel variable is present but cannot be parsed: it holds no
/// `:` separator.
#[derive(Debug, Clone, Copy, PartialEq, Eq, Structural)]
pub enum StateError {
    Malformed,
}

impl StateError {
    /// A human-readable description of the failure.
    pub fn message(&self) -> (m: String)
        ensures
            m@ == "Invalid ENVSWITCH_ENV variable; please inspect and clear it"@,
    {
        String::from_str("Invalid ENVSWITCH_ENV variable; please inspect and clear it")
    }
}

/// The environment name encoded in a sentinel value: the part before
/// the first `:`, or empty if there is no `:`.
pub open spec fn state_name(s: Seq<char>) -> Seq<char> {
    if s.contains(':') {
        s.take(find_char(s, ':'))
    } else {
        Seq::empty()
    }
}

/// The tracked variable names encoded in a sentinel value: the part
/// after the first `:`, split on `,`.
pub open spec fn state_vars(s: Seq<char>) -> Seq<Seq<char>> {
    split_chars(s.skip(find_char(s, ':') + 1), ',')
}

/// The sentinel value that records `name` as the active environment and
/// `vars` as the variables it set.
pub open spec fn encode_state(name: Seq<char>, vars: Seq<Seq<char>>) -> Seq<char> {
    name + seq![':'] + join_seqs(vars, seq![','])
}

/// One clear statement per tracked variable name, in the stored order,
/// skipping empty names.
pub open spec fn clear_commands_spec(sh: Shell, vars: Seq<Seq<char>>) -> Seq<Seq<char>>
    decreases vars.len(),
{
    if vars.len() == 0 {
        Seq::empty()
    } else {
        let init = clear_commands_spec(sh, vars.drop_last());
        if vars.last().len() == 0 {
            init
        } else {
            init.push(clear_var_spec(sh, vars.last()))
        }
    }
}

/// The state recorded by the previous successful transition: the
/// variable names that were set then, as decoded from the sentinel
/// variable.
#[derive(Debug)]
pub struct CurrentEnv {
    pub vars: Vec<String>,
}

impl CurrentEnv {
    /// The name of the currently active environment: the part of the
    /// sentinel value before the first `:`, or empty when the variable
    /// is absent or holds no `:`.
    pub fn name(raw: Option<&str>) -> (r: String)
        ensures
            match raw {
                Some(s) => r@ == state_name(s@),
                None => r@ == Seq::<char>::empty(),
            },
    {
        match raw {
            None => String::new(),
            Some(s) => {
                let n = s.unicode_len();
                let idx = strutil::find_char_str(s, ':');
                if idx < n {
                    let name = s.substring_char(0, idx);
                    proof {
                        assert(s@.subrange(0, idx as int) =~= s@.take(find_char(s@, ':')));
                    }
                    name.to_owned()
                } else {
                    String::new()
                }
            },
        }
    }

    /// Decodes the sentinel value: absence means no tracked variables;
    /// a value without `:` is malformed; otherwise the part after the
    /// first `:` is split on `,` into the tracked variable names.
    pub fn new(raw: Option<&str>) -> (r: Result<CurrentEnv, StateError>)
        ensures
            match raw {
                None => r matches Ok(ce) && ce.vars.deep_view() == Seq::<Seq<char>>::empty(),
                Some(s) => if s@.contains(':') {
                    r matches Ok(ce) && ce.vars.deep_view() == state_vars(s@)
                } else {
                    r matches Err(e) && e == StateError::Malformed
                },
            },
    {
        match raw {
            None => {
                let ce = CurrentEnv { vars: Vec::new() };
                proof {
                    assert(ce.vars.deep_view() =~= Seq::<Seq<char>>::empty());
                }
                Ok(ce)
            },
            Some(s) => {
                let n = s.unicode_len();
                let idx = strutil::find_char_str(s, ':');
                if idx >= n {
                    return Err(StateError::Malformed);
                }
                let rest = s.substring_char(idx + 1, n);
                proof {
                    assert(rest@ =~= s@.skip(find_char(s@, ':') + 1));
                }
                let vars = strutil::split_str(rest, ',');
                Ok(CurrentEnv { vars })
            },
        }
    }

    /// One clear statement per tracked variable name, in the stored
    /// order, skipping empty names.
    pub fn clear_commands(&self, shell: &Shell) -> (cmds: Vec<String>)
        ensures
            cmds.deep_view() == clear_commands_spec(*shell, self.vars.deep_view()),
    {
        let n = self.vars.len();
        let mut cmds: Vec<String> = Vec::new();
        let mut i: usize = 0;
        proof {
            assert(self.vars.deep_view().subrange(0, 0) =~= Seq::<Seq<char>>::empty());
            assert(cmds.deep_view() =~= clear_commands_spec(
                *shell,
                self.vars.deep_view().subrange(0, 0),
            ));
        }
        while i < n
            invariant
                i <= n,
                n == self.vars@.len(),
                cmds.deep_view() == clear_commands_spec(
                    *shell,
                    self.vars.deep_view().subrange(0, i as int),
                ),
            decreases n - i,
        {
            proof {
                assert(self.vars.deep_view().subrange(0, i + 1).drop_last()
                    =~= self.vars.deep_view().subrange(0, i as int));
                assert(self.vars.deep_view().subrange(0, i + 1).last()
                    == self.vars.deep_view()[i as int]);
            }
            if !self.vars[i].as_str().is_empty() {
                let ghost cmds0 = cmds.deep_view();
                let cmd = shell.clear_var(self.vars[i].as_str());
                cmds.push(cmd);
                proof {
                    assert(cmds.deep_view() =~= cmds0.push(cmd@));
                }
            }
            i = i + 1;
        }
        proof {
            assert(self.vars.deep_view().subrange(0, n as int) =~= self.vars.deep_view());
        }
        cmds
    }

    /// The statement that records `env` and `vars` in the sentinel
    /// variable for the next invocation to find.
    pub fn set(&self, shell: &Shell, env: &str, vars: &Vec<String>) -> (r: String)
        ensures
            r@ == set_var_spec(*shell, "ENVSWITCH_ENV"@, encode_state(env@, vars.deep_view())),
    {
        let mut value = String::new();
        value.append(env);
        value.append(":");
        let joined = strutil::join_strs(vars, ",");
        value.append(joined.as_str());
        proof {
            reveal_strlit(":");
            reveal_strlit(",");
            assert(":"@ =~= seq![':']);
            assert(","@ =~= seq![',']);
            assert(value@ =~= encode_state(env@, vars.deep_view()));
        }
        shell.set_var(envswitch_var(), value.as_str())
    }
}

/// Law: the state round-trips through the sentinel encoding. For any
/// name free of `:` and any non-empty list of variable names each free
/// of `,`, decoding the encoded sentinel value recovers the name (as
/// `CurrentEnv::name` reads it) and the same variable names (as
/// `CurrentEnv::new` reads them).
pub proof fn lemma_state_round_trip(name: Seq<char>, vars: Seq<Seq<char>>)
    requires
        !name.contains(':'),
        vars.len() >= 1,
        forall|i: int| 0 <= i < vars.len() ==> !(#[trigger] vars[i]).contains(','),
    ensures
        encode_state(name, vars).contains(':'),
        state_name(encode_state(name, vars)) == name,
        state_vars(encode_state(name, vars)) == vars,
{
    let joined = join_seqs(vars, seq![',']);
    let enc = encode_state(name, vars);
    strutil::lemma_find_char_concat(name, ':', joined);
    assert(enc[name.len() as int] == ':');
    assert(enc.contains(':'));
    assert(enc.take(name.len() as int) =~= name);
    assert(enc.skip(name.len() as int + 1) =~= joined);
    strutil::lemma_split_of_join(vars, ',');
}

/// Law: clearing is idempotent at the empty state. A state that tracks
/// no variable names yields no clear commands at all.
pub proof fn lemma_clear_commands_empty_state(sh: Shell)
    ensures
        clear_commands_spec(sh, Seq::<Seq<char>>::empty()) == Seq::<Seq<char>>::empty(),
{
}

} // verus!
