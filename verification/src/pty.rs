//! The shell started in a terminal: its program, arguments, working directory and
//! environment, with a prompt that reports the working directory to the terminal.
use vstd::prelude::*;
use crate::config::{accent_ok, accent_rgb, accent_spec};
use crate::ext::{path_file_name, push_str, std_file_name};
use crate::status::push_decimal_chars;
use crate::text::decimal_chars;

verus! {

/// Input for a running shell, or a new terminal size.
#[derive(Debug, PartialEq)]
pub enum PtyCommand {
    Input(Vec<u8>),
    Resize { cols: u16, rows: u16 },
}

/// How to start a shell.
#[derive(Debug, PartialEq)]
pub struct ShellCommand {
    pub program: String,
    pub args: Vec<String>,
    pub cwd: Option<String>,
    pub env: Vec<(String, String)>,
}

pub ghost struct ShellCommandView {
    pub program: Seq<char>,
    pub args: Seq<Seq<char>>,
    pub cwd: Option<Seq<char>>,
    pub env: Seq<(Seq<char>, Seq<char>)>,
}

impl View for ShellCommand {
    type V = ShellCommandView;

    open spec fn view(&self) -> ShellCommandView {
        ShellCommandView {
            program: self.program@,
            args: self.args@.map_values(|a: String| a@),
            cwd: match self.cwd { Some(c) => Some(c@), None => None },
            env: self.env@.map_values(|e: (String, String)| (e.0@, e.1@)),
        }
    }
}

/// The prompt: the working directory in grey, then `λ` in the accent colour.
pub open spec fn prompt_ps1(r: u8, g: u8, b: u8) -> Seq<char> {
    "\\[\\e[38;2;128;128;128m\\]\\w\\[\\e[0m\\] \\[\\e[38;2;"@ + decimal_chars(r as nat) + seq![';'] + decimal_chars(g as nat) + seq![';']
        + decimal_chars(b as nat) + "m\\]λ\\[\\e[0m\\] "@
}

/// The command run before each prompt: it reports the working directory (OSC 7), and
/// wraps `ssh` to report the remote host while connected.
pub open spec fn prompt_command() -> Seq<char> {
    "if ! declare -f ssh > /dev/null 2>&1; then ssh() { local h=\"\" s=false; for a in \"$@\"; do $s && { s=false; continue; }; case \"$a\" in -b|-c|-D|-E|-e|-F|-I|-i|-J|-L|-l|-m|-o|-p|-Q|-R|-S|-W|-w) s=true;; -*) ;; *) h=\"$a\"; break;; esac; done; [ -n \"$h\" ] && printf \"\\033]7;ssh://%s\\033\\\\\" \"$h\"; command ssh \"$@\"; printf \"\\033]7;file://%s%s\\033\\\\\" \"$HOSTNAME\" \"$PWD\"; }; fi; printf \"\\033]7;file://%s%s\\033\\\\\" \"$HOSTNAME\" \"$PWD\""@
}

/// The arguments that make a known shell a login, interactive shell.
pub open spec fn shell_args(name: Seq<char>) -> Seq<Seq<char>> {
    if name == "bash"@ {
        seq!["--login"@, "-i"@]
    } else if name == "zsh"@ {
        seq!["-l"@, "-i"@]
    } else if name == "fish"@ {
        seq!["-l"@]
    } else {
        Seq::empty()
    }
}

/// The environment of the shell: a 256-colour, true-colour terminal marked as Nova, and
/// except for fish the prompt and prompt command.
pub open spec fn shell_env(name: Seq<char>, accent: (u8, u8, u8)) -> Seq<(Seq<char>, Seq<char>)> {
    let base = seq![
        ("TERM"@, "xterm-256color"@),
        ("COLORTERM"@, "truecolor"@),
        ("NOVA_TERMINAL"@, "1"@),
        ("TERM_PROGRAM"@, "Nova"@),
    ];
    if name == "fish"@ {
        base
    } else {
        base + seq![("PS1"@, prompt_ps1(accent.0, accent.1, accent.2)), ("PROMPT_COMMAND"@, prompt_command())]
    }
}

/// The shell to start for `shell` (a name or a path), in the home directory when known,
/// with the accent colour of the theme in its prompt.
pub open spec fn shell_command(shell: Seq<char>, home: Option<Seq<char>>, accent: Seq<char>) -> ShellCommandView {
    let name = match std_file_name(shell) { Some(n) => n, None => shell };
    ShellCommandView {
        program: shell,
        args: shell_args(name),
        cwd: home,
        env: shell_env(name, accent_spec(accent)),
    }
}

fn same_text(a: &str, b: &str) -> (r: bool)
    ensures
        r == (a@ == b@),
{
    let x = crate::text::chars_of(a);
    let y = crate::text::chars_of(b);
    crate::text::chars_equal(x.as_slice(), y.as_slice())
}

fn ps1(r: u8, g: u8, b: u8) -> (s: String)
    ensures
        s@ == prompt_ps1(r, g, b),
{
    let mut s = String::new();
    push_str(&mut s, "\\[\\e[38;2;128;128;128m\\]\\w\\[\\e[0m\\] \\[\\e[38;2;");
    push_decimal_chars(&mut s, r as usize);
    crate::ext::push_char(&mut s, ';');
    push_decimal_chars(&mut s, g as usize);
    crate::ext::push_char(&mut s, ';');
    push_decimal_chars(&mut s, b as usize);
    push_str(&mut s, "m\\]λ\\[\\e[0m\\] ");
    assert(s@ =~= prompt_ps1(r, g, b));
    s
}

fn env_pair(k: &str, v: String) -> (p: (String, String))
    ensures
        p.0@ == k@,
        p.1@ == v@,
{
    (k.to_string(), v)
}

/// The command that starts a shell (see [`shell_command`]).
pub fn build_shell_command(shell: &str, home: Option<String>, accent: &str) -> (c: ShellCommand)
    requires
        accent_ok(accent@),
    ensures
        c@ == shell_command(shell@, match home { Some(h) => Some(h@), None => None }, accent@),
{
    let name = match path_file_name(shell) {
        Some(n) => n,
        None => shell.to_string(),
    };
    let mut args: Vec<String> = Vec::new();
    if same_text(name.as_str(), "bash") {
        args.push("--login".to_string());
        args.push("-i".to_string());
    } else if same_text(name.as_str(), "zsh") {
        args.push("-l".to_string());
        args.push("-i".to_string());
    } else if same_text(name.as_str(), "fish") {
        args.push("-l".to_string());
    }
    assert(args@.map_values(|a: String| a@) =~= shell_args(name@));
    let mut env: Vec<(String, String)> = Vec::new();
    env.push(env_pair("TERM", "xterm-256color".to_string()));
    env.push(env_pair("COLORTERM", "truecolor".to_string()));
    env.push(env_pair("NOVA_TERMINAL", "1".to_string()));
    env.push(env_pair("TERM_PROGRAM", "Nova".to_string()));
    if !same_text(name.as_str(), "fish") {
        let (r, g, b) = accent_rgb(accent);
        env.push(env_pair("PS1", ps1(r, g, b)));
        env.push(env_pair("PROMPT_COMMAND", "if ! declare -f ssh > /dev/null 2>&1; then ssh() { local h=\"\" s=false; for a in \"$@\"; do $s && { s=false; continue; }; case \"$a\" in -b|-c|-D|-E|-e|-F|-I|-i|-J|-L|-l|-m|-o|-p|-Q|-R|-S|-W|-w) s=true;; -*) ;; *) h=\"$a\"; break;; esac; done; [ -n \"$h\" ] && printf \"\\033]7;ssh://%s\\033\\\\\" \"$h\"; command ssh \"$@\"; printf \"\\033]7;file://%s%s\\033\\\\\" \"$HOSTNAME\" \"$PWD\"; }; fi; printf \"\\033]7;file://%s%s\\033\\\\\" \"$HOSTNAME\" \"$PWD\"".to_string()));
    }
    assert(env@.map_values(|e: (String, String)| (e.0@, e.1@)) =~= shell_env(name@, accent_spec(accent@)));
    let c = ShellCommand { program: shell.to_string(), args, cwd: home, env };
    assert(c@ =~= shell_command(shell@, match home { Some(h) => Some(h@), None => None }, accent@));
    c
}

} // verus!
