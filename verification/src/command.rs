//! Command system: parsed invocations, commands and their registry.

use vstd::prelude::*;
use crate::error::BotError;
use crate::text::{
    append_str, chars_of, is_white_space, is_ws, join, join_chars, starts_with, str_eq,
    str_starts_with, string_of,
};
use std::sync::Arc;

verus! {

/// A second handle to the value behind `a` (`Arc::clone`).
#[verifier::external_body]
fn share<T>(a: &Arc<T>) -> (r: Arc<T>)
    ensures
        r == *a,
{
    Arc::clone(a)
}

/// The characters of each string, in order.
pub open spec fn views(v: Seq<String>) -> Seq<Seq<char>> {
    v.map_values(|s: String| s@)
}

/// Command context passed to handlers
pub struct CommandContext {
    /// Sender client ID
    pub sender_id: u16,
    /// Sender name
    pub sender_name: String,
    /// Sender unique ID
    pub sender_uid: Option<String>,
    /// Command name
    pub command: String,
    /// Command arguments
    pub args: Vec<String>,
    /// Raw message
    pub raw_message: String,
    /// Is private message
    pub is_private: bool,
}

impl CommandContext {
    /// Create a new command context
    pub fn new(
        sender_id: u16,
        sender_name: String,
        sender_uid: Option<String>,
        command: String,
        args: Vec<String>,
        raw_message: String,
        is_private: bool,
    ) -> (c: CommandContext)
        ensures
            c.sender_id == sender_id,
            c.sender_name == sender_name,
            c.sender_uid == sender_uid,
            c.command == command,
            c.args == args,
            c.raw_message == raw_message,
            c.is_private == is_private,
    {
        CommandContext {
            sender_id,
            sender_name,
            sender_uid,
            command,
            args,
            raw_message,
            is_private,
        }
    }

    /// Get argument at index
    pub fn arg(&self, index: usize) -> (r: Option<&str>)
        ensures
            match r {
                Some(s) => index < self.args.len() && s@ == self.args@[index as int]@,
                None => index >= self.args.len(),
            },
    {
        if index < self.args.len() {
            Some(self.args[index].as_str())
        } else {
            None
        }
    }

    /// Get argument or default
    pub fn arg_or<'a>(&'a self, index: usize, default: &'a str) -> (r: &'a str)
        ensures
            r@ == if index < self.args.len() {
                self.args@[index as int]@
            } else {
                default@
            },
    {
        if index < self.args.len() {
            self.args[index].as_str()
        } else {
            default
        }
    }

    fn joined_from(&self, index: usize) -> (r: String)
        requires
            index <= self.args.len(),
        ensures
            r@ == join(views(self.args@).skip(index as int), " "@),
    {
        let mut parts: Vec<Vec<char>> = Vec::new();
        let mut i: usize = index;
        while i < self.args.len()
            invariant
                index <= i <= self.args.len(),
                parts@.map_values(|p: Vec<char>| p@) == views(self.args@).subrange(
                    index as int,
                    i as int,
                ),
            decreases self.args.len() - i,
        {
            let ghost before = parts@;
            let c = chars_of(self.args[i].as_str());
            parts.push(c);
            assert(parts@.map_values(|p: Vec<char>| p@) =~= before.map_values(|p: Vec<char>| p@).push(
                self.args@[i as int]@,
            ));
            assert(views(self.args@).subrange(index as int, i + 1 as int) =~= views(
                self.args@,
            ).subrange(index as int, i as int).push(self.args@[i as int]@));
            i += 1;
        }
        assert(views(self.args@).subrange(index as int, self.args.len() as int) =~= views(
            self.args@,
        ).skip(index as int));
        let sep = chars_of(" ");
        let r = join_chars(&parts, &sep);
        string_of(&r)
    }

    /// Get all arguments as a single string
    pub fn args_string(&self) -> (r: String)
        ensures
            r@ == join(views(self.args@), " "@),
    {
        let r = self.joined_from(0);
        assert(views(self.args@).skip(0) =~= views(self.args@));
        r
    }

    /// Get arguments from index onwards as a single string
    pub fn args_from(&self, index: usize) -> (r: String)
        requires
            index <= self.args.len(),
        ensures
            r@ == join(views(self.args@).skip(index as int), " "@),
    {
        self.joined_from(index)
    }

    /// Check if has enough arguments
    pub fn require_args(&self, count: usize) -> (r: Result<(), BotError>)
        ensures
            match r {
                Ok(()) => self.args.len() >= count,
                Err(e) => self.args.len() < count && (e matches BotError::NotEnoughArguments {
                    expected,
                    got,
                } && expected == count && got == self.args.len()),
            },
    {
        if self.args.len() < count {
            Err(BotError::NotEnoughArguments { expected: count, got: self.args.len() })
        } else {
            Ok(())
        }
    }
}

/// What a command's handler tells about itself: help, usage and who may use it.
pub trait CommandHandler {
    /// Get command help text (none, unless the handler says otherwise)
    fn help(&self) -> (r: Option<&str>)
        default_ensures
            r is None,
    {
        None
    }

    /// Get command usage (none, unless the handler says otherwise)
    fn usage(&self) -> (r: Option<&str>)
        default_ensures
            r is None,
    {
        None
    }

    /// Check if user can use this command (anyone, unless the handler says otherwise)
    fn can_use(&self, ctx: &CommandContext) -> (r: bool)
        default_ensures
            r,
    {
        true
    }
}

/// A registered command
pub struct Command<H> {
    /// Command name
    pub name: String,
    /// Command aliases
    pub aliases: Vec<String>,
    /// Command handler
    pub handler: Arc<H>,
    /// Help text
    pub help: Option<String>,
    /// Usage text
    pub usage: Option<String>,
    /// Is owner-only
    pub owner_only: bool,
    /// Is hidden from help
    pub hidden: bool,
}

/// Two commands agree on every field but the ones a builder step sets.
pub open spec fn same_but_flags<H>(a: Command<H>, b: Command<H>) -> bool {
    &&& a.name == b.name
    &&& a.aliases@ == b.aliases@
    &&& a.handler == b.handler
    &&& a.help == b.help
    &&& a.usage == b.usage
}

impl<H: CommandHandler> Command<H> {
    /// Create a new command
    pub fn new(name: &str, handler: H) -> (c: Command<H>)
        ensures
            c.name@ == name@,
            c.aliases@ == Seq::<String>::empty(),
            *c.handler == handler,
            c.help is None,
            c.usage is None,
            !c.owner_only,
            !c.hidden,
    {
        Command {
            name: string_of(&chars_of(name)),
            aliases: Vec::new(),
            handler: Arc::new(handler),
            help: None,
            usage: None,
            owner_only: false,
            hidden: false,
        }
    }
}

impl<H> Command<H> {
    /// Add an alias
    pub fn alias(self, alias: &str) -> (c: Command<H>)
        ensures
            views(c.aliases@) == views(self.aliases@).push(alias@),
            c.name == self.name,
            c.handler == self.handler,
            c.help == self.help,
            c.usage == self.usage,
            c.owner_only == self.owner_only,
            c.hidden == self.hidden,
    {
        let mut c = self;
        let ghost before = c.aliases@;
        c.aliases.push(string_of(&chars_of(alias)));
        assert(views(c.aliases@) =~= views(before).push(alias@));
        c
    }

    /// Set help text
    pub fn help(self, help: &str) -> (c: Command<H>)
        ensures
            c.help matches Some(h) && h@ == help@,
            c.name == self.name,
            c.aliases == self.aliases,
            c.handler == self.handler,
            c.usage == self.usage,
            c.owner_only == self.owner_only,
            c.hidden == self.hidden,
    {
        let mut c = self;
        c.help = Some(string_of(&chars_of(help)));
        c
    }

    /// Set usage text
    pub fn usage(self, usage: &str) -> (c: Command<H>)
        ensures
            c.usage matches Some(u) && u@ == usage@,
            c.name == self.name,
            c.aliases == self.aliases,
            c.handler == self.handler,
            c.help == self.help,
            c.owner_only == self.owner_only,
            c.hidden == self.hidden,
    {
        let mut c = self;
        c.usage = Some(string_of(&chars_of(usage)));
        c
    }

    /// Mark as owner-only
    pub fn owner_only(self) -> (c: Command<H>)
        ensures
            c.owner_only,
            same_but_flags(c, self),
            c.hidden == self.hidden,
    {
        let mut c = self;
        c.owner_only = true;
        c
    }

    /// Mark as hidden
    pub fn hidden(self) -> (c: Command<H>)
        ensures
            c.hidden,
            same_but_flags(c, self),
            c.owner_only == self.owner_only,
    {
        let mut c = self;
        c.hidden = true;
        c
    }
}

/// The index of the first entry under key `k`.
pub open spec fn key_index<V>(es: Seq<(Seq<char>, V)>, k: Seq<char>) -> Option<int>
    decreases es.len(),
{
    if es.len() == 0 {
        None
    } else {
        match key_index(es.drop_last(), k) {
            Some(i) => Some(i),
            None => if es.last().0 == k {
                Some(es.len() - 1)
            } else {
                None
            },
        }
    }
}

/// The entries with `v` stored under `k`: in place of the entry under `k`, else appended.
pub open spec fn put<V>(es: Seq<(Seq<char>, V)>, k: Seq<char>, v: V) -> Seq<(Seq<char>, V)> {
    match key_index(es, k) {
        Some(i) => es.update(i, (k, v)),
        None => es.push((k, v)),
    }
}

/// The entries with `v` stored under each of `ks` in turn.
pub open spec fn put_all<V>(es: Seq<(Seq<char>, V)>, ks: Seq<Seq<char>>, v: V) -> Seq<
    (Seq<char>, V),
>
    decreases ks.len(),
{
    if ks.len() == 0 {
        es
    } else {
        put(put_all(es, ks.drop_last(), v), ks.last(), v)
    }
}

/// The value stored under `k`.
pub open spec fn lookup<V>(es: Seq<(Seq<char>, V)>, k: Seq<char>) -> Option<V> {
    match key_index(es, k) {
        Some(i) => Some(es[i].1),
        None => None,
    }
}

/// `a` comes before or equals `b`, comparing characters by code point, a prefix first.
pub open spec fn lex_le(a: Seq<char>, b: Seq<char>) -> bool
    decreases a.len(),
{
    if a.len() == 0 {
        true
    } else if b.len() == 0 {
        false
    } else if a[0] != b[0] {
        (a[0] as int) < (b[0] as int)
    } else {
        lex_le(a.drop_first(), b.drop_first())
    }
}

/// Whether `a` sorts before or with `b` (the order `String::cmp` gives: UTF-8 bytes compare
/// as code points do).
pub fn lex_le_exec(a: &str, b: &str) -> (r: bool)
    ensures
        r == lex_le(a@, b@),
{
    let av = chars_of(a);
    let bv = chars_of(b);
    let mut i: usize = 0;
    assert(av@.skip(0) =~= av@);
    assert(bv@.skip(0) =~= bv@);
    while i < av.len() && i < bv.len() && av[i] == bv[i]
        invariant
            i <= av.len(),
            i <= bv.len(),
            lex_le(av@, bv@) == lex_le(av@.skip(i as int), bv@.skip(i as int)),
        decreases av.len() - i,
    {
        proof {
            let x = av@.skip(i as int);
            let y = bv@.skip(i as int);
            assert(x.drop_first() =~= av@.skip(i + 1));
            assert(y.drop_first() =~= bv@.skip(i + 1));
        }
        i += 1;
    }
    assert(av@.skip(i as int).len() == av.len() - i);
    if i == av.len() {
        true
    } else if i == bv.len() {
        false
    } else {
        assert(av@.skip(i as int)[0] == av@[i as int]);
        assert(bv@.skip(i as int)[0] == bv@[i as int]);
        av[i] < bv[i]
    }
}

/// The commands of `cs`, keeping only the first of each name, in order.
pub open spec fn firsts<H>(cs: Seq<Command<H>>) -> Seq<Command<H>>
    decreases cs.len(),
{
    if cs.len() == 0 {
        Seq::empty()
    } else {
        let f = firsts(cs.drop_last());
        if exists|j: int| 0 <= j < f.len() && f[j].name@ == cs.last().name@ {
            f
        } else {
            f.push(cs.last())
        }
    }
}

/// `x` inserted into `s` after the last command whose name sorts with or before its own.
pub open spec fn insert_by_name<H>(s: Seq<Command<H>>, x: Command<H>) -> Seq<Command<H>>
    decreases s.len(),
{
    if s.len() == 0 {
        seq![x]
    } else if lex_le(s.last().name@, x.name@) {
        s.push(x)
    } else {
        insert_by_name(s.drop_last(), x).push(s.last())
    }
}

/// `s` stably sorted by name.
pub open spec fn sort_by_name<H>(s: Seq<Command<H>>) -> Seq<Command<H>>
    decreases s.len(),
{
    if s.len() == 0 {
        Seq::empty()
    } else {
        insert_by_name(sort_by_name(s.drop_last()), s.last())
    }
}

/// The commands of `cs` that are not hidden, in order.
pub open spec fn shown<H>(cs: Seq<Command<H>>) -> Seq<Command<H>>
    decreases cs.len(),
{
    if cs.len() == 0 {
        Seq::empty()
    } else if cs.last().hidden {
        shown(cs.drop_last())
    } else {
        shown(cs.drop_last()).push(cs.last())
    }
}

/// The command behind a shared handle.
pub open spec fn inner<H>(a: Arc<Command<H>>) -> Command<H> {
    *a
}

/// The commands behind a list of shared handles.
pub open spec fn unshare<H>(v: Seq<Arc<Command<H>>>) -> Seq<Command<H>> {
    v.map_values(|a: Arc<Command<H>>| *a)
}


/// One help line per command: two spaces, the name, " - ", and the help text ("No
/// description" where there is none).
pub open spec fn help_lines<H>(cs: Seq<Command<H>>) -> Seq<char>
    decreases cs.len(),
{
    if cs.len() == 0 {
        Seq::empty()
    } else {
        let c = cs.last();
        help_lines(cs.drop_last()) + "  "@ + c.name@ + " - "@ + match c.help {
            Some(h) => h@,
            None => "No description"@,
        } + "\n"@
    }
}

/// The words of `s`: its maximal runs of non-whitespace characters, in order.
pub open spec fn words(s: Seq<char>) -> Seq<Seq<char>> {
    words_from(s, 0, Seq::empty())
}

/// The words of `s[i..]`, the first of them continuing the run `cur`.
pub open spec fn words_from(s: Seq<char>, i: int, cur: Seq<char>) -> Seq<Seq<char>>
    decreases s.len() - i,
{
    if i >= s.len() {
        if cur.len() > 0 {
            seq![cur]
        } else {
            Seq::empty()
        }
    } else if is_white_space(s[i]) {
        (if cur.len() > 0 {
            seq![cur]
        } else {
            Seq::empty()
        }) + words_from(s, i + 1, Seq::empty())
    } else {
        words_from(s, i + 1, cur.push(s[i]))
    }
}

/// Splits characters into words at whitespace.
fn split_words(s: &Vec<char>) -> (r: Vec<String>)
    ensures
        views(r@) == words(s@),
{
    let mut r: Vec<String> = Vec::new();
    let mut cur: Vec<char> = Vec::new();
    let mut i: usize = 0;
    assert(views(r@) =~= Seq::<Seq<char>>::empty());
    while i < s.len()
        invariant
            i <= s.len(),
            views(r@) + words_from(s@, i as int, cur@) == words(s@),
        decreases s.len() - i,
    {
        let ghost before = views(r@);
        if is_ws(s[i]) {
            if cur.len() > 0 {
                r.push(string_of(&cur));
                assert(views(r@) =~= before + seq![cur@]);
            }
            proof {
                let tail = words_from(s@, i + 1, Seq::empty());
                if cur@.len() > 0 {
                    assert(before + (seq![cur@] + tail) =~= views(r@) + tail);
                } else {
                    assert(before + (Seq::<Seq<char>>::empty() + tail) =~= views(r@) + tail);
                }
            }
            cur = Vec::new();
        } else {
            cur.push(s[i]);
        }
        i += 1;
    }
    if cur.len() > 0 {
        let ghost before = views(r@);
        r.push(string_of(&cur));
        assert(views(r@) =~= before + seq![cur@]);
    } else {
        assert(views(r@) + Seq::<Seq<char>>::empty() =~= views(r@));
    }
    r
}

/// Command registry
pub struct CommandRegistry<H> {
    commands: Vec<(String, Arc<Command<H>>)>,
    prefix: String,
}

impl<H> CommandRegistry<H> {
    /// The registered names (command names and aliases) with their commands, in the order
    /// the names were first registered.
    pub closed spec fn entries(&self) -> Seq<(Seq<char>, Command<H>)> {
        self.commands@.map_values(|p: (String, Arc<Command<H>>)| (p.0@, *p.1))
    }

    /// The prefix that starts a command message.
    pub closed spec fn prefix(&self) -> Seq<char> {
        self.prefix@
    }

    /// Create a new command registry
    pub fn new(prefix: &str) -> (r: CommandRegistry<H>)
        ensures
            r.entries() == Seq::<(Seq<char>, Command<H>)>::empty(),
            r.prefix() == prefix@,
    {
        let r = CommandRegistry { commands: Vec::new(), prefix: string_of(&chars_of(prefix)) };
        assert(r.entries() =~= Seq::<(Seq<char>, Command<H>)>::empty());
        r
    }

    fn insert(&mut self, key: String, command: Arc<Command<H>>)
        ensures
            final(self).entries() == put(old(self).entries(), key@, *command),
            final(self).prefix() == old(self).prefix(),
    {
        let ghost es = self.entries();
        let mut i: usize = 0;
        while i < self.commands.len()
            invariant
                i <= self.commands.len(),
                es == self.entries(),
                es == old(self).entries(),
                self.prefix() == old(self).prefix(),
                forall|j: int| 0 <= j < i ==> es[j].0 != key@,
            decreases self.commands.len() - i,
        {
            if str_eq(self.commands[i].0.as_str(), key.as_str()) {
                proof {
                    lemma_key_index_at(es, key@, i as int);
                }
                self.commands.set(i, (key, command));
                assert(self.entries() =~= put(es, key@, *command));
                return ;
            }
            i += 1;
        }
        proof {
            lemma_key_index_none(es, key@);
        }
        self.commands.push((key, command));
        assert(self.entries() =~= put(es, key@, *command));
    }

    /// Register a command
    pub fn register(&mut self, command: Command<H>)
        ensures
            final(self).entries() == put_all(
                old(self).entries(),
                seq![command.name@] + views(command.aliases@),
                command,
            ),
            final(self).prefix() == old(self).prefix(),
    {
        let ghost c = command;
        let ghost keys = seq![command.name@] + views(command.aliases@);
        let command = Arc::new(command);
        let name = command.name.clone();
        self.insert(name, share(&command));
        assert(keys.take(1).drop_last() =~= Seq::<Seq<char>>::empty());
        assert(keys.take(1).last() == c.name@);
        assert(put_all(old(self).entries(), keys.take(1).drop_last(), c) == old(self).entries());
        let mut i: usize = 0;
        while i < command.aliases.len()
            invariant
                i <= command.aliases.len(),
                *command == c,
                keys == seq![c.name@] + views(c.aliases@),
                self.entries() == put_all(old(self).entries(), keys.take(i + 1), c),
                self.prefix() == old(self).prefix(),
            decreases command.aliases.len() - i,
        {
            let alias = command.aliases[i].clone();
            assert(keys.take(i + 2).drop_last() =~= keys.take(i + 1));
            assert(keys.take(i + 2).last() == c.aliases@[i as int]@);
            self.insert(alias, share(&command));
            i += 1;
        }
        assert(keys.take(command.aliases.len() + 1) =~= keys);
    }

    /// Get a command by name
    pub fn get(&self, name: &str) -> (r: Option<Arc<Command<H>>>)
        ensures
            match r {
                Some(c) => lookup(self.entries(), name@) == Some(*c),
                None => lookup(self.entries(), name@) is None,
            },
    {
        let ghost es = self.entries();
        let mut i: usize = 0;
        while i < self.commands.len()
            invariant
                i <= self.commands.len(),
                es == self.entries(),
                forall|j: int| 0 <= j < i ==> es[j].0 != name@,
            decreases self.commands.len() - i,
        {
            if str_eq(self.commands[i].0.as_str(), name) {
                proof {
                    lemma_key_index_at(es, name@, i as int);
                }
                return Some(share(&self.commands[i].1));
            }
            i += 1;
        }
        proof {
            lemma_key_index_none(es, name@);
        }
        None
    }

    /// Parse a message and return command + context if valid
    pub fn parse(&self, message: &str) -> (r: Option<(String, Vec<String>)>)
        ensures
            ({
                let rest = message@.skip(self.prefix().len() as int);
                match r {
                    Some((cmd, args)) => starts_with(message@, self.prefix()) && words(rest).len()
                        > 0 && cmd@ == words(rest)[0] && views(args@) == words(rest).skip(1),
                    None => !starts_with(message@, self.prefix()) || words(rest).len() == 0,
                }
            }),
    {
        if !str_starts_with(message, self.prefix.as_str()) {
            return None;
        }
        let m = chars_of(message);
        let p = chars_of(self.prefix.as_str());
        let mut rest: Vec<char> = Vec::new();
        let mut i: usize = p.len();
        while i < m.len()
            invariant
                p.len() <= i <= m.len(),
                rest@ == m@.subrange(p.len() as int, i as int),
            decreases m.len() - i,
        {
            rest.push(m[i]);
            i += 1;
            assert(rest@ =~= m@.subrange(p.len() as int, i as int));
        }
        assert(rest@ =~= message@.skip(self.prefix().len() as int));
        let mut ws = split_words(&rest);
        if ws.len() == 0 {
            return None;
        }
        let ghost all = views(ws@);
        let cmd = ws.remove(0);
        assert(views(ws@) =~= all.skip(1));
        Some((cmd, ws))
    }

    /// Get all commands (excluding aliases)
    pub fn all_commands(&self) -> (r: Vec<Arc<Command<H>>>)
        ensures
            unshare(r@) == sort_by_name(firsts(self.entries().map_values(|e: (Seq<char>, Command<H>)| e.1))),
    {
        let ghost cs = self.entries().map_values(|e: (Seq<char>, Command<H>)| e.1);
        let mut kept: Vec<Arc<Command<H>>> = Vec::new();
        let mut i: usize = 0;
        assert(cs.take(0) =~= Seq::<Command<H>>::empty());
        assert(unshare(kept@) =~= Seq::<Command<H>>::empty());
        while i < self.commands.len()
            invariant
                i <= self.commands.len(),
                cs == self.entries().map_values(|e: (Seq<char>, Command<H>)| e.1),
                cs.len() == self.commands.len(),
                unshare(kept@) == firsts(cs.take(i as int)),
            decreases self.commands.len() - i,
        {
            let c = &self.commands[i].1;
            let ghost f = unshare(kept@);
            assert(cs.take(i + 1).drop_last() =~= cs.take(i as int));
            assert(cs.take(i + 1).last() == **c);
            let mut seen = false;
            let mut j: usize = 0;
            while j < kept.len()
                invariant
                    j <= kept.len(),
                    f == unshare(kept@),
                    seen == exists|k: int| 0 <= k < j && f[k].name@ == c.name@,
                decreases kept.len() - j,
            {
                assert(f[j as int] == inner(kept@[j as int]));
                if str_eq(kept[j].name.as_str(), c.name.as_str()) {
                    seen = true;
                }
                proof {
                    if seen {
                        if f[j as int].name@ == c.name@ {
                            assert(0 <= j < j + 1 && f[j as int].name@ == c.name@);
                        }
                    }
                }
                j += 1;
            }
            if !seen {
                kept.push(share(c));
                assert(unshare(kept@) =~= f.push(**c));
            }
            i += 1;
        }
        assert(cs.take(self.commands.len() as int) =~= cs);
        let ghost firsts_all = unshare(kept@);
        let mut sorted: Vec<Arc<Command<H>>> = Vec::new();
        let mut i: usize = 0;
        assert(firsts_all.take(0) =~= Seq::<Command<H>>::empty());
        assert(unshare(sorted@) =~= Seq::<Command<H>>::empty());
        while i < kept.len()
            invariant
                i <= kept.len(),
                firsts_all == unshare(kept@),
                unshare(sorted@) == sort_by_name(firsts_all.take(i as int)),
            decreases kept.len() - i,
        {
            assert(firsts_all.take(i + 1).drop_last() =~= firsts_all.take(i as int));
            assert(firsts_all.take(i + 1).last() == *kept[i as int]);
            insert_command(&mut sorted, share(&kept[i]));
            i += 1;
        }
        assert(firsts_all.take(kept.len() as int) =~= firsts_all);
        sorted
    }


    /// The prefix that starts a command message.
    pub fn prefix_str(&self) -> (r: &str)
        ensures
            r@ == self.prefix(),
    {
        self.prefix.as_str()
    }

    /// The command a chat message invokes, with the context to run it in: the message must
    /// start with the prefix and name a registered command, and an owner-only command needs
    /// a sender whose unique id is among `owners`.
    pub fn resolve(
        &self,
        owners: &Vec<String>,
        sender_id: u16,
        sender_name: String,
        sender_uid: Option<String>,
        message: String,
        is_private: bool,
    ) -> (r: Option<(Arc<Command<H>>, CommandContext)>)
        ensures
            ({
                let rest = message@.skip(self.prefix().len() as int);
                let parsed = starts_with(message@, self.prefix()) && words(rest).len() > 0;
                let name = words(rest)[0];
                match r {
                    Some((cmd, ctx)) => {
                        &&& parsed
                        &&& lookup(self.entries(), name) == Some(*cmd)
                        &&& cmd.owner_only ==> (sender_uid matches Some(uid) && views(owners@).contains(
                            uid@,
                        ))
                        &&& ctx.sender_id == sender_id
                        &&& ctx.sender_name == sender_name
                        &&& ctx.sender_uid == sender_uid
                        &&& ctx.command@ == name
                        &&& views(ctx.args@) == words(rest).skip(1)
                        &&& ctx.raw_message == message
                        &&& ctx.is_private == is_private
                    },
                    None => !parsed || lookup(self.entries(), name) is None || (lookup(
                        self.entries(),
                        name,
                    ).unwrap().owner_only && !(sender_uid matches Some(uid) && views(
                        owners@,
                    ).contains(uid@))),
                }
            }),
    {
        let (name, args) = match self.parse(message.as_str()) {
            Some(p) => p,
            None => return None,
        };
        let command = match self.get(name.as_str()) {
            Some(c) => c,
            None => return None,
        };
        if command.owner_only {
            match &sender_uid {
                Some(uid) => {
                    let mut found = false;
                    let mut i: usize = 0;
                    while i < owners.len()
                        invariant
                            i <= owners.len(),
                            found == views(owners@).take(i as int).contains(uid@),
                        decreases owners.len() - i,
                    {
                        assert(views(owners@).take(i + 1 as int) =~= views(owners@).take(
                            i as int,
                        ).push(owners@[i as int]@));
                        if str_eq(owners[i].as_str(), uid.as_str()) {
                            found = true;
                        }
                        proof {
                            let a = views(owners@).take(i as int);
                            let b = views(owners@).take(i + 1 as int);
                            if a.contains(uid@) {
                                let k = choose|k: int| 0 <= k < a.len() && a[k] == uid@;
                                assert(b[k] == a[k]);
                            }
                            if owners@[i as int]@ == uid@ {
                                assert(b[i as int] == uid@);
                            }
                            if b.contains(uid@) {
                                let k = choose|k: int| 0 <= k < b.len() && b[k] == uid@;
                                if k < a.len() {
                                    assert(a[k] == b[k]);
                                }
                            }
                        }
                        i += 1;
                    }
                    assert(views(owners@).take(owners.len() as int) =~= views(owners@));
                    if !found {
                        return None;
                    }
                },
                None => return None,
            }
        }
        let ctx = CommandContext::new(
            sender_id,
            sender_name,
            sender_uid,
            name,
            args,
            message,
            is_private,
        );
        Some((command, ctx))
    }

    /// The help listing: a header line, then one line per visible command with its help
    /// text ("No description" where it has none).
    pub fn help_text(&self) -> (r: String)
        ensures
            r@ == "Available commands:\n"@ + help_lines(
                shown(sort_by_name(firsts(self.entries().map_values(|e: (Seq<char>, Command<H>)| e.1)))),
            ),
    {
        let cmds = self.visible_commands();
        let ghost cs = unshare(cmds@);
        let mut v: Vec<char> = Vec::new();
        append_str(&mut v, "Available commands:\n");
        let ghost head = v@;
        let mut i: usize = 0;
        assert(cs.take(0) =~= Seq::<Command<H>>::empty());
        assert(v@ =~= head + help_lines(cs.take(0)));
        while i < cmds.len()
            invariant
                i <= cmds.len(),
                cs == unshare(cmds@),
                v@ == head + help_lines(cs.take(i as int)),
            decreases cmds.len() - i,
        {
            let c = &cmds[i];
            let ghost before = v@;
            append_str(&mut v, "  ");
            append_str(&mut v, c.name.as_str());
            append_str(&mut v, " - ");
            match &c.help {
                Some(h) => append_str(&mut v, h.as_str()),
                None => append_str(&mut v, "No description"),
            }
            append_str(&mut v, "\n");
            assert(cs.take(i + 1).drop_last() =~= cs.take(i as int));
            assert(cs.take(i + 1).last() == inner(cmds@[i as int]));
            assert(v@ =~= head + help_lines(cs.take(i + 1)));
            i += 1;
        }
        assert(cs.take(cmds.len() as int) =~= cs);
        string_of(&v)
    }

    /// Get visible commands for help
    pub fn visible_commands(&self) -> (r: Vec<Arc<Command<H>>>)
        ensures
            unshare(r@) == shown(
                sort_by_name(firsts(self.entries().map_values(|e: (Seq<char>, Command<H>)| e.1))),
            ),
    {
        let all = self.all_commands();
        let ghost a = unshare(all@);
        let mut r: Vec<Arc<Command<H>>> = Vec::new();
        let mut i: usize = 0;
        assert(a.take(0) =~= Seq::<Command<H>>::empty());
        assert(unshare(r@) =~= Seq::<Command<H>>::empty());
        while i < all.len()
            invariant
                i <= all.len(),
                a == unshare(all@),
                unshare(r@) == shown(a.take(i as int)),
            decreases all.len() - i,
        {
            assert(a.take(i + 1).drop_last() =~= a.take(i as int));
            assert(a.take(i + 1).last() == *all[i as int]);
            if !all[i].hidden {
                let ghost before = unshare(r@);
                r.push(share(&all[i]));
                assert(unshare(r@) =~= before.push(*all[i as int]));
            }
            i += 1;
        }
        assert(a.take(all.len() as int) =~= a);
        r
    }
}

/// Inserts a command into a list sorted by name, after every command whose name sorts with
/// or before its own.
fn insert_command<H>(r: &mut Vec<Arc<Command<H>>>, x: Arc<Command<H>>)
    ensures
        unshare(final(r)@) == insert_by_name(unshare(old(r)@), *x),
{
    let ghost s = unshare(r@);
    let ghost xv: Command<H> = inner(x);
    let mut p: usize = r.len();
    while p > 0 && !lex_le_exec(r[p - 1].name.as_str(), x.name.as_str())
        invariant
            p <= r.len(),
            s == unshare(r@),
            forall|j: int| p <= j < r.len() ==> !lex_le(#[trigger] s[j].name@, x.name@),
        decreases p,
    {
        p -= 1;
    }
    proof {
        lemma_insert_by_name_at(s, xv, p as int);
    }
    r.insert(p, x);
    assert(unshare(r@) =~= s.take(p as int).push(xv) + s.skip(p as int));
}

proof fn lemma_insert_by_name_at<H>(s: Seq<Command<H>>, x: Command<H>, p: int)
    requires
        0 <= p <= s.len(),
        forall|j: int| p <= j < s.len() ==> !lex_le(#[trigger] s[j].name@, x.name@),
        p == 0 || lex_le(s[p - 1].name@, x.name@),
    ensures
        insert_by_name(s, x) == s.take(p).push(x) + s.skip(p),
    decreases s.len(),
{
    if s.len() == 0 {
        assert(s.take(p).push(x) + s.skip(p) =~= seq![x]);
    } else if lex_le(s.last().name@, x.name@) {
        assert(p == s.len());
        assert(s.take(p).push(x) + s.skip(p) =~= s.push(x));
    } else {
        let t = s.drop_last();
        assert forall|j: int| p <= j < t.len() implies !lex_le(#[trigger] t[j].name@, x.name@) by {
            assert(t[j] == s[j]);
        }
        lemma_insert_by_name_at(t, x, p);
        assert(t.take(p) =~= s.take(p));
        assert((t.take(p).push(x) + t.skip(p)).push(s.last()) =~= s.take(p).push(x) + s.skip(p));
    }
}

proof fn lemma_key_index_at<V>(es: Seq<(Seq<char>, V)>, k: Seq<char>, i: int)
    requires
        0 <= i < es.len(),
        es[i].0 == k,
        forall|j: int| 0 <= j < i ==> es[j].0 != k,
    ensures
        key_index(es, k) == Some(i),
    decreases es.len(),
{
    if i < es.len() - 1 {
        lemma_key_index_at(es.drop_last(), k, i);
    } else {
        lemma_key_index_none(es.drop_last(), k);
    }
}

proof fn lemma_key_index_none<V>(es: Seq<(Seq<char>, V)>, k: Seq<char>)
    requires
        forall|j: int| 0 <= j < es.len() ==> es[j].0 != k,
    ensures
        key_index(es, k) is None,
    decreases es.len(),
{
    if es.len() > 0 {
        lemma_key_index_none(es.drop_last(), k);
    }
}


/// Any two texts are ordered one way or the other.
pub proof fn lex_le_total(a: Seq<char>, b: Seq<char>)
    ensures
        lex_le(a, b) || lex_le(b, a),
    decreases a.len(),
{
    if a.len() > 0 && b.len() > 0 {
        if a[0] == b[0] {
            lex_le_total(a.drop_first(), b.drop_first());
        } else {
            assert((a[0] as int) != (b[0] as int));
        }
    }
}

/// The order of texts is transitive.
pub proof fn lex_le_transitive(a: Seq<char>, b: Seq<char>, c: Seq<char>)
    requires
        lex_le(a, b),
        lex_le(b, c),
    ensures
        lex_le(a, c),
    decreases a.len(),
{
    if a.len() > 0 && b.len() > 0 && c.len() > 0 && a[0] == b[0] && b[0] == c[0] {
        lex_le_transitive(a.drop_first(), b.drop_first(), c.drop_first());
    }
}

/// Texts ordered both ways are equal.
pub proof fn lex_le_antisymmetric(a: Seq<char>, b: Seq<char>)
    requires
        lex_le(a, b),
        lex_le(b, a),
    ensures
        a == b,
    decreases a.len(),
{
    if a.len() > 0 && b.len() > 0 {
        lex_le_antisymmetric(a.drop_first(), b.drop_first());
        assert(a =~= seq![a[0]] + a.drop_first());
        assert(b =~= seq![b[0]] + b.drop_first());
    }
}

/// Commands listed by name: each one's name sorts with or before the next ones'.
pub open spec fn sorted_by_name<H>(s: Seq<Command<H>>) -> bool {
    forall|i: int, j: int| 0 <= i < j < s.len() ==> lex_le(#[trigger] s[i].name@, #[trigger] s[j].name@)
}

proof fn lemma_insert_by_name_sorted<H>(s: Seq<Command<H>>, x: Command<H>)
    requires
        sorted_by_name(s),
    ensures
        sorted_by_name(insert_by_name(s, x)),
        insert_by_name(s, x).len() == s.len() + 1,
        forall|k: int|
            0 <= k < insert_by_name(s, x).len() ==> #[trigger] insert_by_name(s, x)[k] == x
                || s.contains(insert_by_name(s, x)[k]),
    decreases s.len(),
{
    let r = insert_by_name(s, x);
    if s.len() == 0 {
    } else if lex_le(s.last().name@, x.name@) {
        assert forall|i: int, j: int| 0 <= i < j < r.len() implies lex_le(
            #[trigger] r[i].name@,
            #[trigger] r[j].name@,
        ) by {
            if j == r.len() - 1 && i < s.len() - 1 {
                lex_le_transitive(s[i].name@, s.last().name@, x.name@);
            }
        }
        assert forall|k: int| 0 <= k < r.len() implies #[trigger] r[k] == x || s.contains(r[k]) by {
            if k < s.len() {
                assert(r[k] == s[k]);
            }
        }
    } else {
        let t = s.drop_last();
        lemma_insert_by_name_sorted(t, x);
        let q = insert_by_name(t, x);
        lex_le_total(s.last().name@, x.name@);
        assert forall|i: int, j: int| 0 <= i < j < r.len() implies lex_le(
            #[trigger] r[i].name@,
            #[trigger] r[j].name@,
        ) by {
            if j == r.len() - 1 {
                assert(r[i] == q[i]);
                if q[i] != x {
                    let m = choose|m: int| 0 <= m < t.len() && t[m] == q[i];
                    assert(s[m] == t[m]);
                }
            } else {
                assert(r[i] == q[i] && r[j] == q[j]);
            }
        }
        assert forall|k: int| 0 <= k < r.len() implies #[trigger] r[k] == x || s.contains(r[k]) by {
            if k < q.len() {
                assert(r[k] == q[k]);
                if q[k] != x {
                    let m = choose|m: int| 0 <= m < t.len() && t[m] == q[k];
                    assert(s[m] == t[m]);
                }
            } else {
                assert(r[k] == s.last());
                assert(s[s.len() - 1] == s.last());
            }
        }
    }
}

/// The commands a registry lists come sorted by name.
pub proof fn commands_listed_by_name<H>(cs: Seq<Command<H>>)
    ensures
        sorted_by_name(sort_by_name(cs)),
        sort_by_name(cs).len() == cs.len(),
    decreases cs.len(),
{
    if cs.len() > 0 {
        commands_listed_by_name(cs.drop_last());
        lemma_insert_by_name_sorted(sort_by_name(cs.drop_last()), cs.last());
    }
}

proof fn lemma_key_index_of_put<V>(es: Seq<(Seq<char>, V)>, k2: Seq<char>, v: V, k: Seq<char>)
    ensures
        lookup(put(es, k2, v), k) == if k == k2 {
            Some(v)
        } else {
            lookup(es, k)
        },
{
    match key_index(es, k2) {
        Some(i) => {
            lemma_key_index_some(es, k2);
            let es2 = es.update(i, (k2, v));
            lemma_key_index_same_keys(es, es2, k);
            if k == k2 {
                assert(es2[i].1 == v);
            } else {
                if key_index(es, k) is Some {
                    lemma_key_index_some(es, k);
                    let j = key_index(es, k).unwrap();
                    assert(j != i);
                }
            }
        },
        None => {
            let es2 = es.push((k2, v));
            lemma_key_index_push(es, k2, v, k);
            if key_index(es, k) is Some {
                lemma_key_index_some(es, k);
            }
        },
    }
}

proof fn lemma_key_index_some<V>(es: Seq<(Seq<char>, V)>, k: Seq<char>)
    requires
        key_index(es, k) is Some,
    ensures
        0 <= key_index(es, k).unwrap() < es.len(),
        es[key_index(es, k).unwrap()].0 == k,
    decreases es.len(),
{
    if key_index(es.drop_last(), k) is Some {
        lemma_key_index_some(es.drop_last(), k);
    }
}

proof fn lemma_key_index_same_keys<V>(a: Seq<(Seq<char>, V)>, b: Seq<(Seq<char>, V)>, k: Seq<char>)
    requires
        a.len() == b.len(),
        forall|i: int| 0 <= i < a.len() ==> #[trigger] a[i].0 == b[i].0,
    ensures
        key_index(a, k) == key_index(b, k),
    decreases a.len(),
{
    if a.len() > 0 {
        lemma_key_index_same_keys(a.drop_last(), b.drop_last(), k);
        assert(a.last().0 == b.last().0);
    }
}

proof fn lemma_key_index_push<V>(es: Seq<(Seq<char>, V)>, k2: Seq<char>, v: V, k: Seq<char>)
    requires
        key_index(es, k2) is None,
    ensures
        key_index(es.push((k2, v)), k) == if k == k2 {
            Some(es.len() as int)
        } else {
            key_index(es, k)
        },
{
    let es2 = es.push((k2, v));
    assert(es2.drop_last() =~= es);
}

/// Every name a command is registered under (its name and each alias) finds it.
pub proof fn registered_names_find_command<V>(es: Seq<(Seq<char>, V)>, keys: Seq<Seq<char>>, v: V)
    ensures
        forall|i: int| 0 <= i < keys.len() ==> lookup(put_all(es, keys, v), #[trigger] keys[i])
            == Some(v),
    decreases keys.len(),
{
    if keys.len() > 0 {
        let before = put_all(es, keys.drop_last(), v);
        registered_names_find_command(es, keys.drop_last(), v);
        assert forall|i: int| 0 <= i < keys.len() implies lookup(
            put_all(es, keys, v),
            #[trigger] keys[i],
        ) == Some(v) by {
            lemma_key_index_of_put(before, keys.last(), v, keys[i]);
            if keys[i] != keys.last() {
                assert(keys.drop_last()[i] == keys[i]);
            }
        }
    }
}

/// Simple function-based command handler
pub struct FnHandler<F> {
    handler: F,
    help: Option<String>,
}

impl<F> FnHandler<F> {
    /// The wrapped function.
    pub closed spec fn function(&self) -> F {
        self.handler
    }

    /// The help text set, if any.
    pub closed spec fn help_text(&self) -> Option<String> {
        self.help
    }

    /// Create a new function handler
    pub fn new(handler: F) -> (h: FnHandler<F>)
        ensures
            h.function() == handler,
            h.help_text() is None,
    {
        FnHandler { handler, help: None }
    }

    /// Set help text
    pub fn with_help(self, help: &str) -> (h: FnHandler<F>)
        ensures
            h.function() == self.function(),
            h.help_text() matches Some(t) && t@ == help@,
    {
        let mut h = self;
        h.help = Some(string_of(&chars_of(help)));
        h
    }

    /// The wrapped function, to call.
    pub fn handler(&self) -> (f: &F)
        ensures
            *f == self.function(),
    {
        &self.handler
    }
}

impl<F> CommandHandler for FnHandler<F> {
    /// The help text set with `with_help`, if any.
    fn help(&self) -> (r: Option<&str>)
        ensures
            match self.help_text() {
                Some(t) => r matches Some(s) && s@ == t@,
                None => r is None,
            },
    {
        match &self.help {
            Some(h) => Some(h.as_str()),
            None => None,
        }
    }
}

} // verus!
