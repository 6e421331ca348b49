//! Command-line front end of the sag-tension core: the usage text, the
//! `--flag value` parser, and the choice of sub-command and solver method.
//!
//! The sub-commands themselves read numbers and print solutions; they run in the
//! application around this library.
use vstd::prelude::*;
use crate::catenary::{method_named, unknown_method_text, Method};
use crate::text::{debug_quote, debug_str, str_eq, string_of};

verus! {

/// Usage text printed by `help` and after a command-line error.
pub const USAGE: &'static str = "atldp \u{2014} ATLDP sag-tension core\n\nUSAGE:\n    atldp catenary --span S --weight w --tension H [--rise h] [--method auto|catenary|parabola]\n    atldp cos --span S --ref-H H --ref-temp T --target-temp T [--rise h]\n              [--ref-weight w] [--target-weight w] [--conductor NAME] [--method ...]\n\nOnly the built-in 'ACSR Drake 26/7' conductor is available in Phase G1.";

// ── flag map ──────────────────────────────────────────────────────────────

/// The map of an association list read front to back: a later entry for a key
/// replaces an earlier one.
pub open spec fn assoc_map(e: Seq<(String, String)>) -> Map<Seq<char>, Seq<char>>
    decreases e.len(),
{
    if e.len() == 0 {
        Map::empty()
    } else {
        assoc_map(e.drop_last()).insert(e.last().0@, e.last().1@)
    }
}

/// Parsed `--flag value` pairs: a map from flag name (without the dashes) to its
/// value, the last occurrence of a flag winning.
pub struct Flags {
    entries: Vec<(String, String)>,
}

impl View for Flags {
    type V = Map<Seq<char>, Seq<char>>;

    closed spec fn view(&self) -> Map<Seq<char>, Seq<char>> {
        assoc_map(self.entries@)
    }
}

proof fn lemma_assoc_tail(e: Seq<(String, String)>, i: int, k: Seq<char>)
    requires
        0 <= i <= e.len(),
        forall|j: int| i <= j < e.len() ==> (#[trigger] e[j]).0@ != k,
    ensures
        assoc_map(e).contains_key(k) == assoc_map(e.take(i)).contains_key(k),
        assoc_map(e).contains_key(k) ==> assoc_map(e)[k] == assoc_map(e.take(i))[k],
    decreases e.len() - i,
{
    if i < e.len() {
        let e1 = e.drop_last();
        assert(e1.take(i) =~= e.take(i));
        assert(e.last() == e[e.len() - 1]);
        lemma_assoc_tail(e1, i, k);
    } else {
        assert(e.take(i) =~= e);
    }
}

impl Flags {
    /// No flags.
    pub fn new() -> (r: Flags)
        ensures
            r@ == Map::<Seq<char>, Seq<char>>::empty(),
    {
        Flags { entries: Vec::new() }
    }

    /// Sets `key` to `value`, replacing any earlier value.
    pub fn insert(&mut self, key: String, value: String)
        ensures
            final(self)@ == old(self)@.insert(key@, value@),
    {
        self.entries.push((key, value));
        proof {
            assert(self.entries@.drop_last() =~= old(self).entries@);
        }
    }

    /// The value of flag `key`, if it was given.
    pub fn get(&self, key: &str) -> (r: Option<&String>)
        ensures
            r matches Some(v) ==> self@.contains_key(key@) && v@ == self@[key@],
            r is None ==> !self@.contains_key(key@),
    {
        let mut i = self.entries.len();
        while i > 0
            invariant
                i <= self.entries@.len(),
                forall|j: int| i <= j < self.entries@.len() ==> (#[trigger] self.entries@[j]).0@ != key@,
            decreases i,
        {
            if str_eq(self.entries[i - 1].0.as_str(), key) {
                proof {
                    lemma_assoc_tail(self.entries@, i as int, key@);
                    let t = self.entries@.take(i as int);
                    assert(t.drop_last() =~= self.entries@.take(i - 1));
                    assert(t.last() == self.entries@[i - 1]);
                }
                return Some(&self.entries[i - 1].1);
            }
            i = i - 1;
        }
        proof {
            lemma_assoc_tail(self.entries@, 0, key@);
            assert(self.entries@.take(0) =~= Seq::<(String, String)>::empty());
        }
        None
    }
}

// ── flag parser ───────────────────────────────────────────────────────────

/// The flag name of a `--name` token.
pub open spec fn flag_key(tok: Seq<char>) -> Option<Seq<char>> {
    if tok.len() >= 2 && tok[0] == '-' && tok[1] == '-' {
        Some(tok.skip(2))
    } else {
        None
    }
}

/// Reads `--flag value` pairs from token `i` on into `acc`: a token that is not a
/// `--flag` is an error, and so is a flag with no value after it.
pub open spec fn parse_flags_from(
    toks: Seq<Seq<char>>,
    acc: Map<Seq<char>, Seq<char>>,
    i: nat,
) -> Result<Map<Seq<char>, Seq<char>>, Seq<char>>
    decreases toks.len() - i,
{
    if i >= toks.len() {
        Ok(acc)
    } else {
        match flag_key(toks[i as int]) {
            None => Err("expected a --flag, got "@ + debug_str(toks[i as int])),
            Some(k) => if i + 1 >= toks.len() {
                Err("flag --"@ + k + " expects a value"@)
            } else {
                parse_flags_from(toks, acc.insert(k, toks[i + 1 as int]), i + 2)
            },
        }
    }
}

proof fn lemma_append_pair(
    toks: Seq<Seq<char>>,
    t: Seq<char>,
    v: Seq<char>,
    k: Seq<char>,
    acc: Map<Seq<char>, Seq<char>>,
    i: nat,
)
    requires
        flag_key(t) == Some(k),
        i <= toks.len(),
        (toks.len() - i) % 2 == 0,
    ensures
        parse_flags_from(toks + seq![t, v], acc, i) == (match parse_flags_from(toks, acc, i) {
            Ok(m) => Ok(m.insert(k, v)),
            Err(e) => Err(e),
        }),
    decreases toks.len() - i,
{
    let all = toks + seq![t, v];
    if i == toks.len() {
        assert(all[i as int] == t);
        assert(all[i + 1int] == v);
        let done = parse_flags_from(all, acc.insert(k, v), (i + 2) as nat);
        assert(done == Ok::<Map<Seq<char>, Seq<char>>, Seq<char>>(acc.insert(k, v)));
    } else {
        assert(all[i as int] == toks[i as int]);
        assert(all[i + 1int] == toks[i + 1int]);
        if let Some(k2) = flag_key(toks[i as int]) {
            lemma_append_pair(toks, t, v, k, acc.insert(k2, toks[i + 1int]), (i + 2) as nat);
        }
    }
}

/// A `--flag value` pair added at the end of the command line sets that flag to
/// the value, whatever the earlier tokens gave it: the last occurrence of a flag
/// wins, and an error in the earlier tokens stays the error.
pub proof fn law_last_flag_wins(toks: Seq<Seq<char>>, t: Seq<char>, v: Seq<char>)
    requires
        toks.len() % 2 == 0,
        flag_key(t) is Some,
    ensures
        parse_flags_from(toks + seq![t, v], Map::empty(), 0) == (match parse_flags_from(
            toks,
            Map::empty(),
            0,
        ) {
            Ok(m) => Ok(m.insert(flag_key(t)->Some_0, v)),
            Err(e) => Err(e),
        }),
{
    lemma_append_pair(toks, t, v, flag_key(t)->Some_0, Map::empty(), 0);
}

/// The texts of a list of strings.
pub open spec fn texts(s: Seq<String>) -> Seq<Seq<char>> {
    s.map_values(|x: String| x@)
}

/// Parse `--flag value` pairs into a map (a repeated flag keeps its last value).
pub fn parse_flags(rest: &[String]) -> (r: Result<Flags, String>)
    ensures
        parse_flags_from(texts(rest@), Map::empty(), 0) matches Ok(m) ==> (r matches Ok(f) && f@ == m),
        parse_flags_from(texts(rest@), Map::empty(), 0) matches Err(e) ==> (r matches Err(s) && s@ == e),
{
    let ghost toks = texts(rest@);
    let mut flags = Flags::new();
    let mut i: usize = 0;
    while i < rest.len()
        invariant
            toks == texts(rest@),
            i <= rest@.len() + 1,
            parse_flags_from(toks, Map::empty(), 0) == parse_flags_from(toks, flags@, i as nat),
        decreases rest@.len() - i,
    {
        let tok = rest[i].as_str();
        assert(tok@ == toks[i as int]);
        let n = tok.unicode_len();
        if n < 2 || tok.get_char(0) != '-' || tok.get_char(1) != '-' {
            let mut msg = string_of("expected a --flag, got ");
            let q = debug_quote(tok);
            msg.append(q.as_str());
            return Err(msg);
        }
        let key = tok.substring_char(2, n);
        assert(key@ =~= tok@.skip(2));
        if i + 1 >= rest.len() {
            let mut msg = string_of("flag --");
            msg.append(key);
            msg.append(" expects a value");
            return Err(msg);
        }
        assert(rest[i + 1]@ == toks[i + 1]);
        flags.insert(string_of(key), rest[i + 1].clone());
        i = i + 2;
    }
    Ok(flags)
}

// ── flag lookups ──────────────────────────────────────────────────────────

/// The value of a flag that must be given; its absence is an error naming it.
pub fn required_flag<'a>(flags: &'a Flags, key: &str) -> (r: Result<&'a String, String>)
    ensures
        flags@.contains_key(key@) ==> (r matches Ok(v) && v@ == flags@[key@]),
        !flags@.contains_key(key@) ==> (r matches Err(s) && s@ == "missing required flag --"@ + key@),
{
    match flags.get(key) {
        Some(v) => Ok(v),
        None => {
            let mut msg = string_of("missing required flag --");
            msg.append(key);
            Err(msg)
        },
    }
}

// ── method and conductor flags ────────────────────────────────────────────

/// The method name selected by the flags (`auto` when `--method` is absent).
pub open spec fn method_flag(flags: Map<Seq<char>, Seq<char>>) -> Seq<char> {
    if flags.contains_key("method"@) {
        flags["method"@]
    } else {
        "auto"@
    }
}

/// The solver method chosen by `--method` (default `auto`); an unknown name is an
/// error carrying the core's message.
pub fn method_of(flags: &Flags) -> (r: Result<Method, String>)
    ensures
        method_named(method_flag(flags@)) matches Some(m) ==> r == Ok::<Method, String>(m),
        method_named(method_flag(flags@)) is None ==> (r matches Err(s) && s@ == unknown_method_text(
            method_flag(flags@),
        )),
{
    let parsed = match flags.get("method") {
        Some(name) => Method::parse(name.as_str()),
        None => Method::parse("auto"),
    };
    match parsed {
        Ok(m) => Ok(m),
        Err(e) => Err(e.message()),
    }
}

/// The error for a `--conductor` naming anything but the built-in conductor.
pub open spec fn unknown_conductor_text(name: Seq<char>, builtin: Seq<char>) -> Seq<char> {
    "unknown conductor "@ + debug_str(name) + "; only "@ + debug_str(builtin) + " is built in"@
}

/// Accepts the flags unless `--conductor` names a conductor other than `builtin`.
pub fn check_conductor(flags: &Flags, builtin: &str) -> (r: Result<(), String>)
    ensures
        (flags@.contains_key("conductor"@) && flags@["conductor"@] != builtin@) ==> (r matches Err(
            s,
        ) && s@ == unknown_conductor_text(flags@["conductor"@], builtin@)),
        !(flags@.contains_key("conductor"@) && flags@["conductor"@] != builtin@) ==> r is Ok,
{
    match flags.get("conductor") {
        Some(name) => {
            if str_eq(name.as_str(), builtin) {
                Ok(())
            } else {
                let mut msg = string_of("unknown conductor ");
                let q = debug_quote(name.as_str());
                msg.append(q.as_str());
                msg.append("; only ");
                let b = debug_quote(builtin);
                msg.append(b.as_str());
                msg.append(" is built in");
                Err(msg)
            }
        },
        None => Ok(()),
    }
}

// ── sub-command ───────────────────────────────────────────────────────────

/// The sub-commands of the CLI.
#[derive(Clone, Copy, Debug, PartialEq, Eq, Structural)]
pub enum CommandKind {
    /// Solve one span at a given tension.
    Catenary,
    /// Change of state from a reference to a target state.
    Cos,
    /// Print the usage text.
    Help,
}

/// A sub-command with its parsed flags (empty for `help`).
pub struct Command {
    /// Which sub-command.
    pub kind: CommandKind,
    /// Its flags.
    pub flags: Flags,
}

/// The sub-command named by `args[0]` and the flags parsed from the rest, or the
/// error text: no command, a flag error, or an unknown command (each followed by
/// the usage text where the CLI prints it).
pub open spec fn command_of(args: Seq<Seq<char>>) -> Result<(CommandKind, Map<Seq<char>, Seq<char>>), Seq<char>> {
    if args.len() == 0 {
        Err("missing command\n\n"@ + USAGE@)
    } else {
        let cmd = args[0];
        let rest = args.drop_first();
        if cmd == "catenary"@ || cmd == "cos"@ {
            let kind = if cmd == "catenary"@ { CommandKind::Catenary } else { CommandKind::Cos };
            match parse_flags_from(rest, Map::empty(), 0) {
                Ok(m) => Ok((kind, m)),
                Err(e) => Err(e),
            }
        } else if cmd == "-h"@ || cmd == "--help"@ || cmd == "help"@ {
            Ok((CommandKind::Help, Map::empty()))
        } else {
            Err("unknown command: "@ + debug_str(cmd) + "\n\n"@ + USAGE@)
        }
    }
}

/// Splits the command line into the sub-command and its flags.
pub fn parse_command(args: &[String]) -> (r: Result<Command, String>)
    ensures
        command_of(texts(args@)) matches Ok((k, m)) ==> (r matches Ok(c) && c.kind == k && c.flags@ == m),
        command_of(texts(args@)) matches Err(e) ==> (r matches Err(s) && s@ == e),
{
    if args.len() == 0 {
        let mut msg = string_of("missing command\n\n");
        msg.append(USAGE);
        return Err(msg);
    }
    let cmd = args[0].as_str();
    let (_, rest) = args.split_at(1);
    assert(texts(rest@) =~= texts(args@).drop_first());
    let kind = if str_eq(cmd, "catenary") {
        CommandKind::Catenary
    } else if str_eq(cmd, "cos") {
        CommandKind::Cos
    } else if str_eq(cmd, "-h") || str_eq(cmd, "--help") || str_eq(cmd, "help") {
        return Ok(Command { kind: CommandKind::Help, flags: Flags::new() });
    } else {
        let mut msg = string_of("unknown command: ");
        let q = debug_quote(cmd);
        msg.append(q.as_str());
        msg.append("\n\n");
        msg.append(USAGE);
        return Err(msg);
    };
    match parse_flags(rest) {
        Ok(flags) => Ok(Command { kind, flags }),
        Err(e) => Err(e),
    }
}

} // verus!
