//! The attribute `cache_it`: a function is given a first statement that
//! looks its key up in a cache, and is otherwise left as it was.
//!
//! The arguments of the attribute are `name = value` pairs. `key` must be
//! given; `var` names the cache handle and `name` the binding of what was
//! found. Values are kept as the text of their tokens.

use crate::syntax::{item_fn, item_fn_parts};
use crate::text::same_text;
use vstd::prelude::*;

verus! {

/// The names of the three arguments.
pub const VAR: &'static str = "var";

pub const KEY: &'static str = "key";

pub const NAME: &'static str = "name";

/// The handle and the binding that are used where none is given.
pub const DEFAULT_HANDLE: &'static str = "cache";

pub const DEFAULT_BINDING: &'static str = "cache_data";

/// The pieces of the messages.
pub const UNEXPECTED_OPEN: &'static str = "unexpected argument `";

pub const UNEXPECTED_CLOSE: &'static str = "`";

pub const MISSING_KEY: &'static str = "missing `key = ...` argument";

/// The pieces of the emitted text. A space stands on either side of every
/// text that is put in, so that no two tokens run together.
pub const LET: &'static str = "let ";

pub const ASSIGN: &'static str = " = ";

pub const GET_OPEN: &'static str = " .get::<_>(& ";

pub const GET_CLOSE: &'static str = " )";

pub const AWAIT: &'static str = " .await";

pub const END: &'static str = " ;";

pub const SPACE: &'static str = " ";

pub const BODY_OPEN: &'static str = " { ";

pub const BODY_CLOSE: &'static str = " }";

/// The arguments of the attribute.
pub struct CacheArgs {
    /// The cache handle, where one is named.
    pub var: Option<String>,
    /// The expression of the key.
    pub key: String,
    /// The binding of what was found, where one is named.
    pub name: Option<String>,
}

/// The arguments read so far.
pub struct PendingArgs {
    pub var: Option<String>,
    pub key: Option<String>,
    pub name: Option<String>,
}

/// Why the arguments are refused.
pub enum ArgError {
    /// An argument that is none of `var`, `key` and `name`, with its name.
    Unexpected(String),
    /// No `key` was given.
    MissingKey,
}

/// An attribute of a function, as the text of its tokens.
pub struct AttrText {
    /// Whether the attribute is written inside the body, with `#!`.
    pub inner: bool,
    /// The attribute, from its `#` to its closing bracket.
    pub text: String,
}

/// The parts of a function that the expansion is made of, each as the text
/// of its tokens.
pub struct FnParts {
    /// The attributes, in the order in which they are written.
    pub attrs: Vec<AttrText>,
    /// The visibility; empty where the function has none.
    pub vis: String,
    /// The signature.
    pub sig: String,
    /// The body, with its braces.
    pub block: String,
    /// Whether the function is declared `async`.
    pub is_async: bool,
}

/// What a `CacheArgs` holds.
pub struct ArgsModel {
    pub var: Option<Seq<char>>,
    pub key: Seq<char>,
    pub name: Option<Seq<char>>,
}

/// What a `PendingArgs` holds.
pub struct PendingModel {
    pub var: Option<Seq<char>>,
    pub key: Option<Seq<char>>,
    pub name: Option<Seq<char>>,
}

/// What an `ArgError` holds.
pub enum ArgErrorModel {
    Unexpected(Seq<char>),
    MissingKey,
}

/// What an `AttrText` holds.
pub struct AttrModel {
    pub inner: bool,
    pub text: Seq<char>,
}

/// What a `FnParts` holds.
pub struct FnModel {
    pub attrs: Seq<AttrModel>,
    pub vis: Seq<char>,
    pub sig: Seq<char>,
    pub block: Seq<char>,
    pub is_async: bool,
}

/// The text that an optional string holds.
pub open spec fn text_of(s: Option<String>) -> Option<Seq<char>> {
    match s {
        Some(t) => Some(t@),
        None => None,
    }
}

impl View for CacheArgs {
    type V = ArgsModel;

    open spec fn view(&self) -> ArgsModel {
        ArgsModel { var: text_of(self.var), key: self.key@, name: text_of(self.name) }
    }
}

impl View for PendingArgs {
    type V = PendingModel;

    open spec fn view(&self) -> PendingModel {
        PendingModel { var: text_of(self.var), key: text_of(self.key), name: text_of(self.name) }
    }
}

impl View for ArgError {
    type V = ArgErrorModel;

    open spec fn view(&self) -> ArgErrorModel {
        match self {
            ArgError::Unexpected(name) => ArgErrorModel::Unexpected(name@),
            ArgError::MissingKey => ArgErrorModel::MissingKey,
        }
    }
}

impl View for AttrText {
    type V = AttrModel;

    open spec fn view(&self) -> AttrModel {
        AttrModel { inner: self.inner, text: self.text@ }
    }
}

impl View for FnParts {
    type V = FnModel;

    open spec fn view(&self) -> FnModel {
        FnModel {
            attrs: self.attrs@.map_values(|a: AttrText| a@),
            vis: self.vis@,
            sig: self.sig@,
            block: self.block@,
            is_async: self.is_async,
        }
    }
}

/// The state before any argument is read.
pub open spec fn nothing_read() -> PendingModel {
    PendingModel { var: None, key: None, name: None }
}

/// One more argument: `var`, `key` and `name` each take the value, a later
/// one replacing an earlier one; any other name is refused.
pub open spec fn accepted(state: PendingModel, name: Seq<char>, value: Seq<char>) -> Result<
    PendingModel,
    ArgErrorModel,
> {
    if name == VAR@ {
        Ok(PendingModel { var: Some(value), ..state })
    } else if name == KEY@ {
        Ok(PendingModel { key: Some(value), ..state })
    } else if name == NAME@ {
        Ok(PendingModel { name: Some(value), ..state })
    } else {
        Err(ArgErrorModel::Unexpected(name))
    }
}

/// The end of the arguments: they stand if a key was given.
pub open spec fn finished(state: PendingModel) -> Result<ArgsModel, ArgErrorModel> {
    match state.key {
        Some(key) => Ok(ArgsModel { var: state.var, key, name: state.name }),
        None => Err(ArgErrorModel::MissingKey),
    }
}

/// The arguments that a list of pairs gives, read from `state` on: the first
/// pair that is refused ends the reading with its error, and a missing key
/// shows only at the end.
pub open spec fn read_from(state: PendingModel, pairs: Seq<(Seq<char>, Seq<char>)>) -> Result<
    ArgsModel,
    ArgErrorModel,
>
    decreases pairs.len(),
{
    if pairs.len() == 0 {
        finished(state)
    } else {
        match accepted(state, pairs[0].0, pairs[0].1) {
            Ok(next) => read_from(next, pairs.skip(1)),
            Err(e) => Err(e),
        }
    }
}

/// The message of an error.
pub open spec fn message_text(e: ArgErrorModel) -> Seq<char> {
    match e {
        ArgErrorModel::Unexpected(name) => UNEXPECTED_OPEN@ + name + UNEXPECTED_CLOSE@,
        ArgErrorModel::MissingKey => MISSING_KEY@,
    }
}

/// The handle that the lookup is made on.
pub open spec fn handle_text(args: ArgsModel) -> Seq<char> {
    match args.var {
        Some(v) => v,
        None => DEFAULT_HANDLE@,
    }
}

/// The name that the result of the lookup is bound to.
pub open spec fn binding_text(args: ArgsModel) -> Seq<char> {
    match args.name {
        Some(n) => n,
        None => DEFAULT_BINDING@,
    }
}

/// The statement that is put first: the binding takes what `get` on the
/// handle gives for a reference to the key, awaited in an `async` function.
pub open spec fn injected_text(args: ArgsModel, is_async: bool) -> Seq<char> {
    let call = LET@ + binding_text(args) + ASSIGN@ + handle_text(args) + GET_OPEN@ + args.key
        + GET_CLOSE@;
    if is_async {
        call + AWAIT@ + END@
    } else {
        call + END@
    }
}

/// The attributes that are written outside the body (`inner` false) or
/// inside it (`inner` true), in their order, a space after each.
pub open spec fn attrs_text(attrs: Seq<AttrModel>, inner: bool) -> Seq<char>
    decreases attrs.len(),
{
    if attrs.len() == 0 {
        Seq::empty()
    } else if attrs.last().inner == inner {
        attrs_text(attrs.drop_last(), inner) + attrs.last().text + SPACE@
    } else {
        attrs_text(attrs.drop_last(), inner)
    }
}

/// The function after the change. Everything stays as it was written: the
/// outer attributes, the visibility and the signature, and in the body the
/// inner attributes. Behind them the body holds the new statement, followed
/// by the old body as a block.
pub open spec fn expansion_text(args: ArgsModel, f: FnModel) -> Seq<char> {
    attrs_text(f.attrs, false) + f.vis + SPACE@ + f.sig + BODY_OPEN@ + attrs_text(f.attrs, true)
        + injected_text(args, f.is_async) + SPACE@ + f.block + BODY_CLOSE@
}

/// A key alone never fails, whatever else is given with it: a list of pairs
/// whose names are all among the three, with a `key` among them, is read.
pub proof fn lemma_known_names_with_key_are_read(
    state: PendingModel,
    pairs: Seq<(Seq<char>, Seq<char>)>,
)
    requires
        forall|i: int|
            0 <= i < pairs.len() ==> {
                ||| (#[trigger] pairs[i]).0 == VAR@
                ||| pairs[i].0 == KEY@
                ||| pairs[i].0 == NAME@
            },
        state.key is Some || exists|i: int| 0 <= i < pairs.len() && (#[trigger] pairs[i]).0 == KEY@,
    ensures
        read_from(state, pairs) is Ok,
    decreases pairs.len(),
{
    if pairs.len() > 0 {
        let next = accepted(state, pairs[0].0, pairs[0].1)->Ok_0;
        let rest = pairs.skip(1);
        assert forall|i: int| 0 <= i < rest.len() implies {
            ||| (#[trigger] rest[i]).0 == VAR@
            ||| rest[i].0 == KEY@
            ||| rest[i].0 == NAME@
        } by {
            assert(rest[i] == pairs[i + 1]);
        }
        if next.key is None {
            reveal_strlit("var");
            reveal_strlit("key");
            reveal_strlit("name");
            assert(VAR@[0] != KEY@[0]);
            assert(NAME@.len() != KEY@.len());
            let i = choose|i: int| 0 <= i < pairs.len() && (#[trigger] pairs[i]).0 == KEY@;
            assert(i > 0);
            assert(rest[i - 1] == pairs[i]);
        }
        lemma_known_names_with_key_are_read(next, rest);
    }
}

impl PendingArgs {
    /// The state before any argument is read.
    pub fn new() -> (r: PendingArgs)
        ensures
            r@ == nothing_read(),
    {
        PendingArgs { var: None, key: None, name: None }
    }

    /// Takes one more argument.
    pub fn accept(self, name: &str, value: String) -> (r: Result<PendingArgs, ArgError>)
        ensures
            match r {
                Ok(next) => accepted(self@, name@, value@) == Ok::<PendingModel, ArgErrorModel>(
                    next@,
                ),
                Err(e) => accepted(self@, name@, value@) == Err::<PendingModel, ArgErrorModel>(e@),
            },
    {
        if same_text(name, VAR) {
            Ok(PendingArgs { var: Some(value), key: self.key, name: self.name })
        } else if same_text(name, KEY) {
            Ok(PendingArgs { var: self.var, key: Some(value), name: self.name })
        } else if same_text(name, NAME) {
            Ok(PendingArgs { var: self.var, key: self.key, name: Some(value) })
        } else {
            Err(ArgError::Unexpected(name.to_owned()))
        }
    }

    /// Ends the reading.
    pub fn finish(self) -> (r: Result<CacheArgs, ArgError>)
        ensures
            match r {
                Ok(args) => finished(self@) == Ok::<ArgsModel, ArgErrorModel>(args@),
                Err(e) => finished(self@) == Err::<ArgsModel, ArgErrorModel>(e@),
            },
    {
        match self.key {
            Some(key) => Ok(CacheArgs { var: self.var, key, name: self.name }),
            None => Err(ArgError::MissingKey),
        }
    }
}

/// The names and values of a list of pairs.
pub open spec fn pair_texts(pairs: Seq<(String, String)>) -> Seq<(Seq<char>, Seq<char>)> {
    pairs.map_values(|p: (String, String)| (p.0@, p.1@))
}

impl CacheArgs {
    /// Reads the arguments from their `name = value` pairs, in order.
    pub fn parse(pairs: &Vec<(String, String)>) -> (r: Result<CacheArgs, ArgError>)
        ensures
            match r {
                Ok(args) => read_from(nothing_read(), pair_texts(pairs@)) == Ok::<
                    ArgsModel,
                    ArgErrorModel,
                >(args@),
                Err(e) => read_from(nothing_read(), pair_texts(pairs@)) == Err::<
                    ArgsModel,
                    ArgErrorModel,
                >(e@),
            },
    {
        let ghost all = pair_texts(pairs@);
        let mut state = PendingArgs::new();
        let n = pairs.len();
        let mut i: usize = 0;
        assert(all.skip(0) =~= all);
        while i < n
            invariant
                i <= n,
                n == pairs@.len(),
                all == pair_texts(pairs@),
                read_from(nothing_read(), all) == read_from(state@, all.skip(i as int)),
            decreases n - i,
        {
            let ghost rest = all.skip(i as int);
            assert(rest[0] == all[i as int]);
            assert(rest.skip(1) =~= all.skip(i + 1));
            let name = pairs[i].0.as_str();
            let value = pairs[i].1.clone();
            match state.accept(name, value) {
                Ok(next) => {
                    state = next;
                },
                Err(e) => {
                    return Err(e);
                },
            }
            i += 1;
        }
        state.finish()
    }

    /// The handle that the lookup is made on.
    pub fn handle(&self) -> (r: String)
        ensures
            r@ == handle_text(self@),
    {
        match &self.var {
            Some(v) => v.clone(),
            None => String::from_str(DEFAULT_HANDLE),
        }
    }

    /// The name that the result of the lookup is bound to.
    pub fn binding(&self) -> (r: String)
        ensures
            r@ == binding_text(self@),
    {
        match &self.name {
            Some(n) => n.clone(),
            None => String::from_str(DEFAULT_BINDING),
        }
    }

    /// The statement that is put first in the body.
    pub fn injected_statement(&self, is_async: bool) -> (r: String)
        ensures
            r@ == injected_text(self@, is_async),
    {
        let mut s = String::from_str(LET);
        s.append(self.binding().as_str());
        s.append(ASSIGN);
        s.append(self.handle().as_str());
        s.append(GET_OPEN);
        s.append(self.key.as_str());
        s.append(GET_CLOSE);
        if is_async {
            s.append(AWAIT);
        }
        s.append(END);
        s
    }
}

impl ArgError {
    /// The message of this error.
    pub fn message(&self) -> (r: String)
        ensures
            r@ == message_text(self@),
    {
        match self {
            ArgError::Unexpected(name) => {
                let mut s = String::from_str(UNEXPECTED_OPEN);
                s.append(name.as_str());
                s.append(UNEXPECTED_CLOSE);
                s
            },
            ArgError::MissingKey => String::from_str(MISSING_KEY),
        }
    }
}

/// Puts the attributes that are written outside the body, or inside it, at
/// the end of `s`.
fn append_attrs(s: &mut String, attrs: &Vec<AttrText>, inner: bool)
    ensures
        final(s)@ == old(s)@ + attrs_text(attrs@.map_values(|a: AttrText| a@), inner),
{
    let ghost all = attrs@.map_values(|a: AttrText| a@);
    let ghost before = s@;
    let n = attrs.len();
    let mut i: usize = 0;
    assert(all.take(0) =~= Seq::<AttrModel>::empty());
    assert(s@ =~= before + attrs_text(all.take(0), inner));
    while i < n
        invariant
            i <= n,
            n == attrs@.len(),
            all == attrs@.map_values(|a: AttrText| a@),
            s@ == before + attrs_text(all.take(i as int), inner),
        decreases n - i,
    {
        let ghost written = attrs_text(all.take(i as int), inner);
        assert(all.take(i + 1).drop_last() =~= all.take(i as int));
        assert(all.take(i + 1).last() == attrs@[i as int]@);
        if attrs[i].inner == inner {
            s.append(attrs[i].text.as_str());
            s.append(SPACE);
            assert(s@ =~= before + (written + attrs@[i as int].text@ + SPACE@));
        }
        i += 1;
    }
    assert(all.take(n as int) =~= all);
}

/// Writes the function with the lookup put first in its body.
pub fn expand_cache_it(args: &CacheArgs, input_fn: &FnParts) -> (r: String)
    ensures
        r@ == expansion_text(args@, input_fn@),
{
    let mut s = String::new();
    append_attrs(&mut s, &input_fn.attrs, false);
    assert(s@ =~= attrs_text(input_fn@.attrs, false));
    s.append(input_fn.vis.as_str());
    s.append(SPACE);
    s.append(input_fn.sig.as_str());
    s.append(BODY_OPEN);
    append_attrs(&mut s, &input_fn.attrs, true);
    s.append(args.injected_statement(input_fn.is_async).as_str());
    s.append(SPACE);
    s.append(input_fn.block.as_str());
    s.append(BODY_CLOSE);
    s
}

/// The attribute: from the arguments and the tokens of the item to the
/// source of the changed function.
///
/// Tokens that spell a function give the expansion of that function, and any
/// other tokens give the parser's error and no expansion.
pub fn cache(args: &CacheArgs, item: proc_macro2::TokenStream) -> (r: Result<String, syn::Error>)
    ensures
        match r {
            Ok(source) => item_fn_parts(item) matches Some(f) && source@ == expansion_text(
                args@,
                f,
            ),
            Err(_) => item_fn_parts(item) is None,
        },
{
    match item_fn(item) {
        Ok(parts) => Ok(expand_cache_it(args, &parts)),
        Err(e) => Err(e),
    }
}

} // verus!
