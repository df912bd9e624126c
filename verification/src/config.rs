//! The options that a declaration can be rewritten with, and the grammar of
//! the attribute arguments that spell them.

use crate::error::Error;
use crate::syntax::{lemma_parts, text_is, views, Kind, Node, Tree};
use vstd::prelude::*;

verus! {

/// The options of one rewriting.
#[derive(PartialEq, Eq, Debug)]
pub struct Attrs {
    /// The name of the scope marker, without its apostrophe.
    pub lifetime: String,
    /// The name of the continuation parameter, where the author calls it by hand.
    pub continuation: Option<String>,
    /// Whether the continuation is taken as a type-erased callback.
    pub dyn_safe: bool,
    /// Whether the declaration calls itself.
    pub recursive: bool,
}

/// The mathematical value of the options.
pub struct Settings {
    pub lifetime: Seq<char>,
    pub continuation: Option<Seq<char>>,
    pub dyn_safe: bool,
    pub recursive: bool,
}

impl View for Attrs {
    type V = Settings;

    open spec fn view(&self) -> Settings {
        Settings {
            lifetime: self.lifetime@,
            continuation: match self.continuation {
                Some(c) => Some(c@),
                None => None,
            },
            dyn_safe: self.dyn_safe,
            recursive: self.recursive,
        }
    }
}

/// The options where nothing is written: the marker is `ref`.
pub open spec fn defaults() -> Settings {
    Settings { lifetime: "ref"@, continuation: None, dyn_safe: false, recursive: false }
}

/// Whether a token is the given punctuation.
pub open spec fn is_punct(t: Tree, spelling: Seq<char>) -> bool {
    t.kind == Kind::Token && t.text == spelling
}

/// Whether a token is the given word.
pub open spec fn is_word(t: Tree, word: Seq<char>) -> bool {
    t.kind == Kind::Ident && t.text == word
}

/// The truth value that a token spells, if it spells one.
pub open spec fn as_bool(t: Tree) -> Option<bool> {
    if is_word(t, "true"@) {
        Some(true)
    } else if is_word(t, "false"@) {
        Some(false)
    } else {
        None
    }
}

/// Where the next option starts after the value at `at`: behind one comma, if
/// there is one.
pub open spec fn after_value(toks: Seq<Tree>, at: nat) -> nat {
    if at + 1 < toks.len() && is_punct(toks[(at + 1) as int], ","@) {
        at + 2
    } else {
        at + 1
    }
}

/// The options that the tokens from `pos` on spell, on top of `acc`: each is
/// `key = value`, with an optional comma behind it.
pub open spec fn options_from(toks: Seq<Tree>, pos: nat, acc: Settings) -> Result<Settings, Error>
    decreases toks.len() - pos,
{
    if pos >= toks.len() {
        Ok(acc)
    } else if pos + 2 >= toks.len() || !is_punct(toks[(pos + 1) as int], "="@) {
        Err(Error::Config)
    } else {
        let key = toks[pos as int];
        let value = toks[(pos + 2) as int];
        let next = after_value(toks, pos + 2);
        if is_word(key, "recursive"@) {
            match as_bool(value) {
                Some(b) => options_from(toks, next, Settings { recursive: b, ..acc }),
                None => Err(Error::Config),
            }
        } else if is_word(key, "dyn_safe"@) {
            match as_bool(value) {
                Some(b) => options_from(toks, next, Settings { dyn_safe: b, ..acc }),
                None => Err(Error::Config),
            }
        } else if is_word(key, "continuation_name"@) {
            if value.kind == Kind::Ident {
                options_from(toks, next, Settings { continuation: Some(value.text), ..acc })
            } else {
                Err(Error::Config)
            }
        } else {
            Err(Error::Config)
        }
    }
}

/// The options that the tokens of an attribute's argument spell: an optional
/// marker scope first, then options separated by commas.
pub open spec fn parsed(toks: Seq<Tree>) -> Result<Settings, Error> {
    if toks.len() > 0 && toks[0].kind == Kind::Scope {
        let acc = Settings { lifetime: toks[0].text, ..defaults() };
        if toks.len() == 1 {
            Ok(acc)
        } else if is_punct(toks[1], ","@) {
            options_from(toks, 2, acc)
        } else {
            Err(Error::Config)
        }
    } else {
        options_from(toks, 0, defaults())
    }
}

/// The tokens of the argument of an attribute, where it has one.
pub open spec fn argument(a: Tree) -> Option<Seq<Tree>> {
    if a.parts.len() == 1 && a.parts[0].kind == Kind::List {
        Some(a.parts[0].parts)
    } else {
        None
    }
}

/// The options that the marker attribute of a member spells. It needs an
/// argument, if an empty one.
pub open spec fn member_options(a: Tree) -> Result<Settings, Error> {
    match argument(a) {
        Some(toks) => parsed(toks),
        None => Err(Error::Config),
    }
}

/// What the marker attribute of a `let` says of the way the call takes its
/// continuation; nothing where it has no argument.
pub open spec fn binding_mode_of(a: Tree) -> Result<Option<bool>, Error> {
    match argument(a) {
        Some(toks) => binding_mode(toks),
        None => Ok(None),
    }
}

/// What the argument of a marker attribute on a `let` says of the way the
/// call takes its continuation: nothing, or whether it is type-erased.
pub open spec fn binding_mode(toks: Seq<Tree>) -> Result<Option<bool>, Error> {
    if toks.len() == 0 {
        Ok(None)
    } else if !is_word(toks[0], "dyn_safe"@) {
        Err(Error::Config)
    } else if toks.len() == 1 {
        Ok(Some(true))
    } else if toks.len() >= 3 && is_punct(toks[1], "="@) && as_bool(toks[2]) is Some
        && after_value(toks, 2) == toks.len() {
        Ok(as_bool(toks[2]))
    } else {
        Err(Error::Config)
    }
}

/// Whether a token is the given punctuation.
fn punct(t: &Node, spelling: &str) -> (b: bool)
    ensures
        b == is_punct(t@, spelling@),
{
    proof {
        lemma_parts(*t);
    }
    t.kind == Kind::Token && text_is(&t.text, spelling)
}

/// Whether a token is the given word.
fn word(t: &Node, w: &str) -> (b: bool)
    ensures
        b == is_word(t@, w@),
{
    proof {
        lemma_parts(*t);
    }
    t.kind == Kind::Ident && text_is(&t.text, w)
}

/// The truth value that a token spells, if it spells one.
fn truth(t: &Node) -> (b: Option<bool>)
    ensures
        b == as_bool(t@),
{
    if word(t, "true") {
        Some(true)
    } else if word(t, "false") {
        Some(false)
    } else {
        None
    }
}

/// Where the next option starts after the value at `at`.
fn skip_comma(toks: &Vec<Node>, at: usize) -> (next: usize)
    requires
        at < toks.len(),
    ensures
        next == after_value(views(toks@), at as nat),
        at < next <= toks.len(),
{
    if at + 1 < toks.len() && punct(&toks[at + 1], ",") {
        at + 2
    } else {
        at + 1
    }
}

impl Attrs {
    /// The options where nothing is written.
    pub fn new() -> (r: Attrs)
        ensures
            r@ == defaults(),
    {
        Attrs {
            lifetime: String::from_str("ref"),
            continuation: None,
            dyn_safe: false,
            recursive: false,
        }
    }

    /// Reads the options from the tokens of an attribute's argument. Fails
    /// with `Error::Config` on anything that the grammar does not take.
    pub fn parse(toks: &Vec<Node>) -> (r: Result<Attrs, Error>)
        ensures
            r is Ok == parsed(views(toks@)) is Ok,
            r is Ok ==> r->Ok_0@ == parsed(views(toks@))->Ok_0,
            r is Err ==> r->Err_0 == Error::Config && parsed(views(toks@)) == Err::<
                Settings,
                Error,
            >(Error::Config),
    {
        let ghost all = views(toks@);
        let mut acc = Attrs::new();
        let mut pos: usize = 0;
        if toks.len() > 0 && toks[0].kind == Kind::Scope {
            proof {
                lemma_parts(toks[0]);
            }
            acc.lifetime = toks[0].text.clone();
            if toks.len() == 1 {
                return Ok(acc);
            }
            if !punct(&toks[1], ",") {
                return Err(Error::Config);
            }
            pos = 2;
        } else {
            proof {
                if toks.len() > 0 {
                    lemma_parts(toks[0]);
                }
            }
        }
        while pos < toks.len()
            invariant
                pos <= toks.len(),
                all == views(toks@),
                options_from(all, pos as nat, acc@) == parsed(all),
            decreases toks.len() - pos,
        {
            if toks.len() - pos <= 2 || !punct(&toks[pos + 1], "=") {
                return Err(Error::Config);
            }
            let key = &toks[pos];
            let value = &toks[pos + 2];
            let next = skip_comma(toks, pos + 2);
            proof {
                lemma_parts(*value);
            }
            if word(key, "recursive") {
                match truth(value) {
                    Some(b) => {
                        acc.recursive = b;
                    },
                    None => {
                        return Err(Error::Config);
                    },
                }
            } else if word(key, "dyn_safe") {
                match truth(value) {
                    Some(b) => {
                        acc.dyn_safe = b;
                    },
                    None => {
                        return Err(Error::Config);
                    },
                }
            } else if word(key, "continuation_name") {
                if value.kind == Kind::Ident {
                    acc.continuation = Some(value.text.clone());
                } else {
                    return Err(Error::Config);
                }
            } else {
                return Err(Error::Config);
            }
            pos = next;
        }
        Ok(acc)
    }

    /// A copy of the options.
    pub fn duplicate(&self) -> (r: Attrs)
        ensures
            r@ == self@,
    {
        Attrs {
            lifetime: self.lifetime.clone(),
            continuation: match &self.continuation {
                Some(c) => Some(c.clone()),
                None => None,
            },
            dyn_safe: self.dyn_safe,
            recursive: self.recursive,
        }
    }
}

/// Reads the argument of a marker attribute on a `let`: empty, `dyn_safe`, or
/// `dyn_safe = ` and a truth value with an optional comma behind it.
pub fn parse_binding_mode(toks: &Vec<Node>) -> (r: Result<Option<bool>, Error>)
    ensures
        r == binding_mode(views(toks@)),
{
    if toks.len() == 0 {
        Ok(None)
    } else if !word(&toks[0], "dyn_safe") {
        Err(Error::Config)
    } else if toks.len() == 1 {
        Ok(Some(true))
    } else if toks.len() >= 3 && punct(&toks[1], "=") {
        match truth(&toks[2]) {
            Some(b) => {
                if skip_comma(toks, 2) == toks.len() {
                    Ok(Some(b))
                } else {
                    Err(Error::Config)
                }
            },
            None => Err(Error::Config),
        }
    } else {
        Err(Error::Config)
    }
}

/// Whether an attribute has an argument.
fn has_argument(a: &Node) -> (b: bool)
    ensures
        b == argument(a@) is Some,
        b ==> a.parts.len() == 1 && argument(a@) == Some(views(a.parts@[0].parts@)),
{
    proof {
        lemma_parts(*a);
    }
    if a.parts.len() == 1 {
        proof {
            lemma_parts(a.parts[0]);
        }
        a.parts[0].kind == Kind::List
    } else {
        false
    }
}

/// Reads the options from the marker attribute of a member.
pub fn parse_member_options(a: &Node) -> (r: Result<Attrs, Error>)
    ensures
        r is Ok == member_options(a@) is Ok,
        r is Ok ==> r->Ok_0@ == member_options(a@)->Ok_0,
        r is Err ==> r->Err_0 == Error::Config && member_options(a@) == Err::<Settings, Error>(
            Error::Config,
        ),
{
    if has_argument(a) {
        Attrs::parse(&a.parts[0].parts)
    } else {
        Err(Error::Config)
    }
}

/// Reads from the marker attribute of a `let` how the call takes its
/// continuation.
pub fn parse_binding_mode_of(a: &Node) -> (r: Result<Option<bool>, Error>)
    ensures
        r == binding_mode_of(a@),
{
    if has_argument(a) {
        parse_binding_mode(&a.parts[0].parts)
    } else {
        Ok(None)
    }
}

} // verus!
