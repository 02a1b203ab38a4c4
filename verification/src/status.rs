//! Status bar and tab texts: elapsed time, the shell's name and the git branch.
use vstd::prelude::*;
use crate::ext::{path_file_name, std_file_name};
use crate::text::{chars_of, decimal_chars, push_chars, string_of_chars, trim, trim_bounds};

verus! {

/// Append the decimal digits of `n`.
pub fn push_decimal_chars(s: &mut String, n: usize)
    ensures
        final(s)@ == old(s)@ + decimal_chars(n as nat),
{
    let mut digits: Vec<u8> = Vec::new();
    crate::text::push_decimal(&mut digits, n);
    assert(digits@ =~= crate::text::decimal(n as nat));
    let mut i: usize = 0;
    while i < digits.len()
        invariant
            i <= digits@.len(),
            digits@ == crate::text::decimal(n as nat),
            s@ == old(s)@ + decimal_chars(n as nat).take(i as int),
        decreases digits@.len() - i,
    {
        crate::ext::push_char(s, digits[i] as char);
        i = i + 1;
        assert(s@ =~= old(s)@ + decimal_chars(n as nat).take(i as int));
    }
    assert(decimal_chars(n as nat).take(digits@.len() as int) =~= decimal_chars(n as nat));
}

/// How long a command ran: milliseconds under a second, then seconds, minutes and
/// seconds, or hours and minutes.
pub open spec fn elapsed_text(secs: nat, millis: nat) -> Seq<char> {
    if secs == 0 {
        decimal_chars(millis) + seq!['m', 's']
    } else if secs < 60 {
        decimal_chars(secs) + seq!['s']
    } else if secs < 3600 {
        decimal_chars(secs / 60) + seq!['m', ' '] + decimal_chars(secs % 60) + seq!['s']
    } else {
        decimal_chars(secs / 3600) + seq!['h', ' '] + decimal_chars((secs % 3600) / 60) + seq!['m']
    }
}

/// The elapsed time of a duration of `secs` seconds and `millis` more milliseconds (see
/// [`elapsed_text`]).
pub fn format_elapsed(secs: u64, millis: u32) -> (s: String)
    requires
        secs <= usize::MAX,
    ensures
        s@ == elapsed_text(secs as nat, millis as nat),
{
    let mut s = String::new();
    if secs == 0 {
        push_decimal_chars(&mut s, millis as usize);
        crate::ext::push_char(&mut s, 'm');
        crate::ext::push_char(&mut s, 's');
    } else if secs < 60 {
        push_decimal_chars(&mut s, secs as usize);
        crate::ext::push_char(&mut s, 's');
    } else if secs < 3600 {
        push_decimal_chars(&mut s, (secs / 60) as usize);
        crate::ext::push_char(&mut s, 'm');
        crate::ext::push_char(&mut s, ' ');
        push_decimal_chars(&mut s, (secs % 60) as usize);
        crate::ext::push_char(&mut s, 's');
    } else {
        push_decimal_chars(&mut s, (secs / 3600) as usize);
        crate::ext::push_char(&mut s, 'h');
        crate::ext::push_char(&mut s, ' ');
        push_decimal_chars(&mut s, ((secs % 3600) / 60) as usize);
        crate::ext::push_char(&mut s, 'm');
    }
    assert(s@ =~= elapsed_text(secs as nat, millis as nat));
    s
}

/// The name a shell command is shown by: the file name of its path, or the command
/// itself when it has none.
pub open spec fn shell_name(cmd: Seq<char>) -> Seq<char> {
    match std_file_name(cmd) {
        Some(n) => n,
        None => cmd,
    }
}

pub fn shell_display_name(cmd: &str) -> (s: String)
    ensures
        s@ == shell_name(cmd@),
{
    match path_file_name(cmd) {
        Some(n) => n,
        None => cmd.to_string(),
    }
}

pub open spec fn ref_prefix() -> Seq<char> {
    "ref: refs/heads/"@
}

/// The branch named by the contents of a `.git/HEAD` file: the branch of a symbolic
/// reference, or the first seven characters of a detached commit id.
pub open spec fn branch_of_head(content: Seq<char>) -> Seq<char> {
    let c = trim(content);
    if c.len() >= ref_prefix().len() && c.take(ref_prefix().len() as int) == ref_prefix() {
        trim(c.skip(ref_prefix().len() as int))
    } else {
        c.take(if c.len() < 7 { c.len() as int } else { 7 })
    }
}

/// The branch shown for a repository's HEAD file (see [`branch_of_head`]).
pub fn branch_from_head(content: &str) -> (s: String)
    ensures
        s@ == branch_of_head(content@),
{
    let v = chars_of(content);
    let n = v.len();
    let (a, b) = trim_bounds(v.as_slice(), 0, n);
    assert(v@.subrange(0, n as int) =~= v@);
    let ghost c = v@.subrange(a as int, b as int);
    let prefix = chars_of("ref: refs/heads/");
    let plen = prefix.len();
    if b - a >= plen && crate::text::matches_at(v.as_slice(), a, prefix.as_slice()) {
        assert(v@.skip(a as int).take(plen as int) =~= c.take(plen as int));
        let (x, y) = trim_bounds(v.as_slice(), a + plen, b);
        assert(c.skip(plen as int) =~= v@.subrange(a + plen, b as int));
        string_of_chars(v.as_slice(), x, y)
    } else {
        proof {
            if b - a >= plen {
                assert(v@.skip(a as int).take(plen as int) =~= c.take(plen as int));
            }
        }
        let end = if b - a < 7 { b } else { a + 7 };
        assert(c.take(if c.len() < 7 { c.len() as int } else { 7 }) =~= v@.subrange(a as int, end as int));
        string_of_chars(v.as_slice(), a, end)
    }
}

/// The font family in use, set from the settings.
pub struct FontFamily {
    pub name: String,
}

impl FontFamily {
    /// The bundled font.
    pub fn new() -> (f: FontFamily)
        ensures
            f.name@ == "FiraCode Nerd Font"@,
    {
        FontFamily { name: "FiraCode Nerd Font".to_string() }
    }

    pub fn get_family(&self) -> (s: &str)
        ensures
            s@ == self.name@,
    {
        self.name.as_str()
    }

    pub fn set_family(&mut self, name: &str)
        ensures
            final(self).name@ == name@,
    {
        self.name = name.to_string();
    }
}


/// The items on the left of the status bar, each with whether it is drawn in the accent
/// colour: the git branch when there is one, the shell, the encoding, and how long the
/// running or last command took.
pub open spec fn status_items_spec(branch: Option<Seq<char>>, shell: Seq<char>, elapsed: Option<(u64, u32)>) -> Seq<(Seq<char>, bool)> {
    let head: Seq<(Seq<char>, bool)> = match branch {
        Some(b) => if b.len() > 0 { seq![(seq![' '] + b, true)] } else { Seq::empty() },
        None => Seq::empty(),
    };
    let tail: Seq<(Seq<char>, bool)> = match elapsed {
        Some((secs, millis)) => seq![(elapsed_text(secs as nat, millis as nat), false)],
        None => Seq::empty(),
    };
    head + seq![(shell, false), ("utf-8"@, false)] + tail
}

pub open spec fn items_view(v: Seq<(String, bool)>) -> Seq<(Seq<char>, bool)> {
    v.map_values(|e: (String, bool)| (e.0@, e.1))
}

/// The items on the left of the status bar (see [`status_items_spec`]); `elapsed` is the
/// duration in whole seconds and the milliseconds beyond them.
pub fn status_items(branch: Option<&str>, shell: &str, elapsed: Option<(u64, u32)>) -> (out: Vec<(String, bool)>)
    requires
        elapsed matches Some((secs, _)) ==> secs <= usize::MAX,
    ensures
        items_view(out@) == status_items_spec(match branch { Some(b) => Some(b@), None => None }, shell@, elapsed),
{
    let mut out: Vec<(String, bool)> = Vec::new();
    match branch {
        Some(b) => {
            if b.unicode_len() > 0 {
                let mut t = String::new();
                crate::ext::push_char(&mut t, ' ');
                crate::ext::push_str(&mut t, b);
                out.push((t, true));
            }
        },
        None => {},
    }
    out.push((shell.to_string(), false));
    out.push(("utf-8".to_string(), false));
    match elapsed {
        Some((secs, millis)) => {
            out.push((format_elapsed(secs, millis), false));
        },
        None => {},
    }
    proof {
        reveal_strlit("utf-8");
    }
    assert(items_view(out@) =~= status_items_spec(match branch { Some(b) => Some(b@), None => None }, shell@, elapsed));
    out
}

} // verus!
