//! The command line: which subcommand runs, and the escape sequence `nova ask` sends to
//! the terminal it runs in.
use vstd::prelude::*;
use crate::config::{clone_strings, strings_view};
use crate::ext::{base64_encode, base64_standard_decode, base64_standard_encode, push_str};
use crate::grid::{ControlView, GridModel};
use crate::osc::{nova_code, osc_spec, push_control, word_ask_ai};
use crate::text::{join_with, trim};

verus! {

/// What the command line asks for.
#[derive(Debug, PartialEq)]
pub enum CliCommand {
    /// No arguments: start the terminal window.
    Gui,
    Help,
    Version,
    Ask(Vec<String>),
    Config(Vec<String>),
    Explain(Vec<String>),
    Unknown(String),
}

pub ghost enum CliView {
    Gui,
    Help,
    Version,
    Ask(Seq<Seq<char>>),
    Config(Seq<Seq<char>>),
    Explain(Seq<Seq<char>>),
    Unknown(Seq<char>),
}

impl View for CliCommand {
    type V = CliView;

    open spec fn view(&self) -> CliView {
        match self {
            CliCommand::Gui => CliView::Gui,
            CliCommand::Help => CliView::Help,
            CliCommand::Version => CliView::Version,
            CliCommand::Ask(a) => CliView::Ask(strings_view(a@)),
            CliCommand::Config(a) => CliView::Config(strings_view(a@)),
            CliCommand::Explain(a) => CliView::Explain(strings_view(a@)),
            CliCommand::Unknown(c) => CliView::Unknown(c@),
        }
    }
}

/// The subcommand named by the arguments after the program name: `help`, `--help`,
/// `-h`; `--version`, `-v`; `ask`, `config`, `explain` with the arguments after them;
/// anything else is unknown. Without arguments the window starts.
pub open spec fn cli_command(args: Seq<Seq<char>>) -> CliView {
    if args.len() <= 1 {
        CliView::Gui
    } else {
        let c = args[1];
        let rest = args.skip(2);
        if c == "help"@ || c == "--help"@ || c == "-h"@ {
            CliView::Help
        } else if c == "--version"@ || c == "-v"@ {
            CliView::Version
        } else if c == "ask"@ {
            CliView::Ask(rest)
        } else if c == "config"@ {
            CliView::Config(rest)
        } else if c == "explain"@ {
            CliView::Explain(rest)
        } else {
            CliView::Unknown(c)
        }
    }
}

fn is(a: &String, w: &str) -> (r: bool)
    ensures
        r == (a@ == w@),
{
    let x = crate::text::chars_of(a.as_str());
    let y = crate::text::chars_of(w);
    crate::text::chars_equal(x.as_slice(), y.as_slice())
}

fn rest_of(args: &Vec<String>) -> (out: Vec<String>)
    requires
        args@.len() >= 2,
    ensures
        strings_view(out@) == strings_view(args@).skip(2),
{
    let mut out: Vec<String> = Vec::new();
    let mut i: usize = 2;
    while i < args.len()
        invariant
            2 <= i <= args@.len(),
            out@.len() == i - 2,
            forall|k: int| 0 <= k < out@.len() ==> #[trigger] out@[k]@ == args@[k + 2]@,
        decreases args@.len() - i,
    {
        let r: &String = &args[i];
        out.push(r.clone());
        i = i + 1;
    }
    assert(strings_view(out@) =~= strings_view(args@).skip(2));
    out
}

/// Decide what the command line asks for (see [`cli_command`]); `args` includes the
/// program name.
pub fn command_from_args(args: &Vec<String>) -> (c: CliCommand)
    ensures
        c@ == cli_command(strings_view(args@)),
{
    if args.len() <= 1 {
        return CliCommand::Gui;
    }
    let c = &args[1];
    assert(strings_view(args@)[1] == c@);
    if is(c, "help") || is(c, "--help") || is(c, "-h") {
        CliCommand::Help
    } else if is(c, "--version") || is(c, "-v") {
        CliCommand::Version
    } else if is(c, "ask") {
        CliCommand::Ask(rest_of(args))
    } else if is(c, "config") {
        CliCommand::Config(rest_of(args))
    } else if is(c, "explain") {
        CliCommand::Explain(rest_of(args))
    } else {
        CliCommand::Unknown(c.clone())
    }
}

/// The base64 text of a question, as bytes.
pub open spec fn encoded_question(preset: Seq<char>) -> Seq<u8> {
    vstd::utf8::encode_utf8(base64_standard_encode(vstd::utf8::encode_utf8(preset)))
}

/// The sequence `nova ask` writes: OSC 777 `ask_ai`, with the question (the arguments
/// joined by spaces) base64-encoded when it is not blank, ended by BEL.
pub open spec fn ask_sequence(args: Seq<Seq<char>>) -> Seq<u8> {
    let preset = join_with(args, seq![' ']);
    let head = seq![0x1bu8, 0x5d] + nova_code() + seq![0x3bu8] + word_ask_ai();
    let middle = if trim(preset).len() > 0 {
        seq![0x3bu8] + encoded_question(preset)
    } else {
        Seq::empty()
    };
    head + middle + seq![0x07u8]
}

/// The encoded question is not empty and decodes back to the question's bytes.
pub open spec fn question_decodes(preset: Seq<char>) -> bool {
    encoded_question(preset).len() > 0
        && base64_standard_decode(encoded_question(preset)) == Some(vstd::utf8::encode_utf8(preset))
}


fn join_args(args: &Vec<String>) -> (s: String)
    ensures
        s@ == join_with(strings_view(args@), seq![' ']),
{
    let mut s = String::new();
    let mut i: usize = 0;
    let ghost v = strings_view(args@);
    assert(v.take(0) =~= Seq::<Seq<char>>::empty());
    while i < args.len()
        invariant
            i <= args@.len(),
            v == strings_view(args@),
            s@ == join_with(v.take(i as int), seq![' ']),
        decreases args@.len() - i,
    {
        if i > 0 {
            crate::ext::push_char(&mut s, ' ');
        }
        push_str(&mut s, args[i].as_str());
        assert(v.take(i + 1).drop_last() =~= v.take(i as int));
        if i == 0 {
            assert(s@ =~= v.take(1)[0]);
        }
        i = i + 1;
    }
    assert(v.take(args@.len() as int) =~= v);
    s
}

/// The bytes `nova ask` writes for its arguments (see [`ask_sequence`]).
pub fn ask_bytes(args: &Vec<String>) -> (out: Vec<u8>)
    requires
        ({
            let preset = join_with(strings_view(args@), seq![' ']);
            (vstd::utf8::encode_utf8(preset).len() / 3) * 4 + 4 <= usize::MAX
        }),
    ensures
        out@ == ask_sequence(strings_view(args@)),
        trim(join_with(strings_view(args@), seq![' '])).len() > 0 ==> question_decodes(join_with(strings_view(args@), seq![' '])),
{
    let preset = join_args(args);
    let mut out: Vec<u8> = vec![0x1bu8, 0x5d, 0x37, 0x37, 0x37, 0x3b, 0x61, 0x73, 0x6b, 0x5f, 0x61, 0x69];
    assert(out@ =~= seq![0x1bu8, 0x5d] + nova_code() + seq![0x3bu8] + word_ask_ai());
    let trimmed = crate::text::trim_string(preset.as_str());
    if trimmed.as_str().unicode_len() > 0 {
        out.push(0x3b);
        let encoded = base64_encode(preset.as_str().as_bytes());
        crate::text::append_bytes(&mut out, encoded.as_str().as_bytes());
        proof {
            vstd::utf8::encode_utf8_decode_utf8(preset@);
            vstd::utf8::encode_utf8_decode_utf8(encoded@);
            assert(preset@.len() > 0) by {
                if preset@.len() == 0 {
                    assert(trim(preset@) =~= preset@) by {
                        reveal_with_fuel(crate::text::trim_end, 1);
                        reveal_with_fuel(crate::text::trim_start, 1);
                    }
                }
            }
            assert(vstd::utf8::encode_utf8(preset@).len() > 0) by {
                if vstd::utf8::encode_utf8(preset@).len() == 0 {
                    assert(vstd::utf8::decode_utf8(vstd::utf8::encode_utf8(preset@)) =~= Seq::<char>::empty());
                }
            }
            assert(vstd::utf8::encode_utf8(encoded@).len() > 0) by {
                if vstd::utf8::encode_utf8(encoded@).len() == 0 {
                    assert(vstd::utf8::decode_utf8(vstd::utf8::encode_utf8(encoded@)) =~= Seq::<char>::empty());
                }
            }
        }
    }
    out.push(0x07);
    out
}


/// What `nova ask` writes reaches the terminal as the same question: the sequence is OSC
/// 777 with the parameters `ask_ai` and the encoded question, and the terminal, given
/// those parameters, asks the interface to open the assistant with that question.
pub proof fn law_ask_reaches_terminal(g: GridModel, args: Seq<Seq<char>>)
    requires
        trim(join_with(args, seq![' '])).len() > 0,
        question_decodes(join_with(args, seq![' '])),
    ensures
        ({
            let preset = join_with(args, seq![' ']);
            &&& ask_sequence(args) == seq![0x1bu8, 0x5d] + nova_code() + seq![0x3bu8] + word_ask_ai() + seq![0x3bu8]
                + encoded_question(preset) + seq![0x07u8]
            &&& osc_spec(g, seq![nova_code(), word_ask_ai(), encoded_question(preset)])
                == push_control(g, ControlView::OpenAskAi { preset: Some(preset) })
        }),
{
    let preset = join_with(args, seq![' ']);
    let bytes = vstd::utf8::encode_utf8(preset);
    assert(ask_sequence(args) =~= seq![0x1bu8, 0x5d] + nova_code() + seq![0x3bu8] + word_ask_ai() + seq![0x3bu8]
        + encoded_question(preset) + seq![0x07u8]);
    vstd::utf8::encode_utf8_valid_utf8(preset);
    vstd::utf8::encode_utf8_decode_utf8(preset);
}

} // verus!
