use vstd::prelude::*;
use vstd::string::StringExecFns;

verus! {

/// The shell dialects whose export/unset syntax the emitter knows.
#[derive(Clone, Copy, Debug, PartialEq, Eq, Structural)]
pub enum Shell {
    Bash,
    Fish,
    Zsh,
}

/// The text of the statement that exports `var` with value `value`
/// in the dialect of `sh`.
pub open spec fn set_var_spec(sh: Shell, var: Seq<char>, value: Seq<char>) -> Seq<char> {
    match sh {
        Shell::Bash | Shell::Zsh => "export "@ + var + "=\""@ + value + "\""@,
        Shell::Fish => "set -gx "@ + var + " \""@ + value + "\""@,
    }
}

/// The text of the statement that unsets `var` in the dialect of `sh`.
pub open spec fn clear_var_spec(sh: Shell, var: Seq<char>) -> Seq<char> {
    match sh {
        Shell::Bash | Shell::Zsh => "unset "@ + var,
        Shell::Fish => "set -e "@ + var,
    }
}

impl Shell {
    /// The dialect's name, as it is spelled on the command line.
    pub fn name(&self) -> (s: &'static str)
        ensures
            *self == Shell::Bash ==> s@ == "bash"@,
            *self == Shell::Fish ==> s@ == "fish"@,
            *self == Shell::Zsh ==> s@ == "zsh"@,
    {
        match self {
            Shell::Bash => "bash",
            Shell::Fish => "fish",
            Shell::Zsh => "zsh",
        }
    }

    /// A statement the calling shell can evaluate to set `var` to `value`.
    pub fn set_var(&self, var: &str, value: &str) -> (r: String)
        ensures
            r@ == set_var_spec(*self, var@, value@),
    {
        let mut r = String::new();
        match self {
            Shell::Bash | Shell::Zsh => {
                r.append("export ");
                r.append(var);
                r.append("=\"");
                r.append(value);
                r.append("\"");
            }
            Shell::Fish => {
                r.append("set -gx ");
                r.append(var);
                r.append(" \"");
                r.append(value);
                r.append("\"");
            }
        }
        proof {
            assert(r@ =~= set_var_spec(*self, var@, value@));
        }
        r
    }

    /// A statement the calling shell can evaluate to unset `var`.
    pub fn clear_var(&self, var: &str) -> (r: String)
        ensures
            r@ == clear_var_spec(*self, var@),
    {
        let mut r = String::new();
        match self {
            Shell::Bash | Shell::Zsh => {
                r.append("unset ");
                r.append(var);
            }
            Shell::Fish => {
                r.append("set -e ");
                r.append(var);
            }
        }
        proof {
            assert(r@ =~= clear_var_spec(*self, var@));
        }
        r
    }
}

} // verus!
