use envswitch::shell::Shell;

#[test]
fn set_var_bash() {
    let s = Shell::Bash.set_var("URL", "staging.com");
    assert_eq!(s, "export URL=\"staging.com\"".to_string());
}

#[test]
fn set_var_zsh() {
    let s = Shell::Zsh.set_var("URL", "staging.com");
    assert_eq!(s, "export URL=\"staging.com\"".to_string());
}

#[test]
fn set_var_fish() {
    let s = Shell::Fish.set_var("URL", "staging.com");
    assert_eq!(s, "set -gx URL \"staging.com\"".to_string());
}

#[test]
fn clear_var_bash() {
    assert_eq!(Shell::Bash.clear_var("URL"), "unset URL".to_string());
}

#[test]
fn clear_var_zsh() {
    assert_eq!(Shell::Zsh.clear_var("URL"), "unset URL".to_string());
}

#[test]
fn clear_var_fish() {
    assert_eq!(Shell::Fish.clear_var("URL"), "set -e URL".to_string());
}

#[test]
fn shell_names() {
    assert_eq!(Shell::Bash.name(), "bash");
    assert_eq!(Shell::Fish.name(), "fish");
    assert_eq!(Shell::Zsh.name(), "zsh");
}
