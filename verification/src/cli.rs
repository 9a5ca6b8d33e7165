//! The server's command line: commands with their parameters, and how a
//! line of input is split into a command and its arguments.
use std::marker::PhantomData;
use std::ops::Range;
use vstd::prelude::*;
use vstd::string::{StrSliceExecFns, StringExecFns};

verus! {

// ---------------------------------------------------------------------------
// Splitting a line
// ---------------------------------------------------------------------------

/// The pieces of `s` between the occurrences of `sep`, as `str::split` with
/// a one-character pattern gives them: there is always at least one piece,
/// and two separators in a row give an empty piece between them.
pub open spec fn split_on(s: Seq<char>, sep: char) -> Seq<Seq<char>>
    decreases s.len(),
{
    if s.len() == 0 {
        seq![Seq::empty()]
    } else {
        let rest = split_on(s.drop_last(), sep);
        if s.last() == sep {
            rest.push(Seq::empty())
        } else {
            rest.update(rest.len() - 1, rest.last().push(s.last()))
        }
    }
}

/// A split never gives an empty list of pieces.
pub proof fn lemma_split_on_nonempty(s: Seq<char>, sep: char)
    ensures
        split_on(s, sep).len() >= 1,
    decreases s.len(),
{
    if s.len() > 0 {
        lemma_split_on_nonempty(s.drop_last(), sep);
    }
}

/// Splits a line at every space.
pub fn split_spaces<'a>(line: &'a str) -> (r: Vec<&'a str>)
    ensures
        r@.map_values(|p: &str| p@) == split_on(line@, ' '),
{
    let n = line.unicode_len();
    let mut pieces: Vec<&'a str> = Vec::new();
    let mut start: usize = 0;
    let mut i: usize = 0;
    proof {
        assert(line@.take(0) =~= Seq::<char>::empty());
        assert(pieces@.map_values(|p: &str| p@).push(line@.subrange(0, 0)) =~= split_on(line@.take(0), ' '));
    }
    while i < n
        invariant
            n == line@.len(),
            start <= i <= n,
            pieces@.map_values(|p: &str| p@).push(line@.subrange(start as int, i as int)) == split_on(
                line@.take(i as int),
                ' ',
            ),
        decreases n - i,
    {
        let c = line.get_char(i);
        proof {
            assert(line@.take(i as int + 1).drop_last() =~= line@.take(i as int));
            assert(line@.take(i as int + 1).last() == c);
            lemma_split_on_nonempty(line@.take(i as int), ' ');
        }
        if c == ' ' {
            let piece = line.substring_char(start, i);
            let ghost before = pieces@.map_values(|p: &str| p@);
            pieces.push(piece);
            proof {
                assert(pieces@.map_values(|p: &str| p@) =~= before.push(line@.subrange(start as int, i as int)));
                assert(line@.subrange(i as int + 1, i as int + 1) =~= Seq::<char>::empty());
            }
            start = i + 1;
        } else {
            proof {
                assert(line@.subrange(start as int, i as int + 1) =~= line@.subrange(start as int, i as int).push(c));
            }
        }
        i = i + 1;
    }
    let last = line.substring_char(start, n);
    pieces.push(last);
    proof {
        assert(line@.take(n as int) =~= line@);
    }
    pieces
}

/// The lower-case form of a text, as `str::to_lowercase` gives it.
pub uninterp spec fn spec_to_lowercase(s: Seq<char>) -> Seq<char>;

/// `str::to_lowercase`: the text with every character replaced by its
/// lower-case form.
#[verifier::external_body]
fn to_lowercase(s: &str) -> (r: String)
    ensures
        r@ == spec_to_lowercase(s@),
{
    s.to_lowercase()
}

// ---------------------------------------------------------------------------
// Parameters
// ---------------------------------------------------------------------------

/// Which whole numbers a parameter accepts.
pub enum CmdParamNumConstraints<T> {
    Range(Range<T>),
    Variants(Vec<T>),
    /// Any number.
    Any,
}

/// Which decimal numbers a parameter accepts.
pub enum CmdParamDecimalConstraints<T> {
    Range(Range<T>),
    /// Any number.
    Any,
}

/// Which lengths of text a parameter accepts.
pub enum CmdParamStrConstraints {
    Range(Range<usize>),
    /// Any length.
    Any,
}

/// The kind of value a parameter takes. `D` is the type of the bounds of a
/// decimal parameter.
pub enum CommandParamTy<D> {
    Int(CmdParamNumConstraints<usize>),
    Float(CmdParamDecimalConstraints<D>),
    String(CmdParamStrConstraints),
    Enum(Vec<(&'static str, EnumVal<D>)>),
}

impl<D> CommandParamTy<D> {
    /// The name of the kind of value.
    pub fn as_str(&self) -> (r: &'static str)
        ensures
            r@ == match self {
                CommandParamTy::Int(_) => "integer"@,
                CommandParamTy::Float(_) => "decimal"@,
                CommandParamTy::String(_) => "string"@,
                CommandParamTy::Enum(_) => "enum"@,
            },
    {
        match self {
            CommandParamTy::Int(_) => "integer",
            CommandParamTy::Float(_) => "decimal",
            CommandParamTy::String(_) => "string",
            CommandParamTy::Enum(_) => "enum",
        }
    }
}

/// What follows a variant of an enum parameter.
pub enum EnumVal<D> {
    Simple(CommandParamTy<D>),
    Complex(UsageSubBuilder<BuilderMutable, D>),
    /// Nothing follows the variant.
    Plain,
}

/// A named parameter of a command.
pub struct CommandParam<D> {
    pub name: String,
    pub ty: CommandParamTy<D>,
}

/// Marks a usage that parameters can still be added to.
pub struct BuilderMutable;

/// Marks a usage that is complete.
pub struct BuilderImmutable;

/// The parameters of a command: required ones, then optional ones, then
/// optional ones that are written after a prefix.
pub struct UsageBuilder<M, D> {
    prefix: Option<String>,
    req: Vec<CommandParam<D>>,
    opt: Vec<CommandParam<D>>,
    opt_prefixed: Vec<CommandParam<D>>,
    mutability: PhantomData<M>,
}

/// The contents of a usage: its prefix and its parameters of each kind.
pub struct UsageShape<D> {
    pub prefix: Option<Seq<char>>,
    pub req: Seq<CommandParam<D>>,
    pub opt: Seq<CommandParam<D>>,
    pub opt_prefixed: Seq<CommandParam<D>>,
}

/// A prefix as plain text.
pub open spec fn prefix_view(p: Option<String>) -> Option<Seq<char>> {
    match p {
        Some(p) => Some(p@),
        None => None,
    }
}

impl<M, D> UsageBuilder<M, D> {
    /// The prefix and the parameters.
    pub closed spec fn shape(&self) -> UsageShape<D> {
        UsageShape { prefix: prefix_view(self.prefix), req: self.req@, opt: self.opt@, opt_prefixed: self.opt_prefixed@ }
    }
}

impl<D> UsageBuilder<BuilderMutable, D> {
    /// A usage with no parameters.
    pub fn new() -> (r: Self)
        ensures
            r.shape() == (UsageShape::<D> {
                prefix: None,
                req: Seq::empty(),
                opt: Seq::empty(),
                opt_prefixed: Seq::empty(),
            }),
    {
        let r = UsageBuilder { prefix: None, req: Vec::new(), opt: Vec::new(), opt_prefixed: Vec::new(), mutability: PhantomData };
        proof {
            assert(r.req@ =~= Seq::<CommandParam<D>>::empty());
            assert(r.opt@ =~= Seq::<CommandParam<D>>::empty());
            assert(r.opt_prefixed@ =~= Seq::<CommandParam<D>>::empty());
        }
        r
    }

    /// Sets the prefix written before each optional prefixed parameter.
    pub fn optional_prefixed_prefix(self, prefix: String) -> (r: Self)
        ensures
            r.shape() == (UsageShape { prefix: Some(prefix@), ..self.shape() }),
    {
        let mut s = self;
        s.prefix = Some(prefix);
        s
    }

    /// Adds a required parameter; all of them come before the optional
    /// ones.
    pub fn required(self, param: CommandParam<D>) -> (r: Self)
        requires
            self.shape().opt.len() == 0,
        ensures
            r.shape() == (UsageShape { req: self.shape().req.push(param), ..self.shape() }),
    {
        let mut s = self;
        s.req.push(param);
        s
    }

    /// Adds an optional parameter.
    pub fn optional(self, param: CommandParam<D>) -> (r: Self)
        ensures
            r.shape() == (UsageShape { opt: self.shape().opt.push(param), ..self.shape() }),
    {
        let mut s = self;
        s.opt.push(param);
        s
    }

    /// Adds an optional parameter written after the prefix, which must have
    /// been set.
    pub fn optional_prefixed(self, param: CommandParam<D>) -> (r: Self)
        requires
            self.shape().prefix is Some,
        ensures
            r.shape() == (UsageShape { opt_prefixed: self.shape().opt_prefixed.push(param), ..self.shape() }),
    {
        let mut s = self;
        s.opt_prefixed.push(param);
        s
    }

    /// The complete usage.
    pub fn finish(self) -> (r: UsageBuilder<BuilderImmutable, D>)
        ensures
            r.shape() == self.shape(),
    {
        UsageBuilder {
            prefix: self.prefix,
            req: self.req,
            opt: self.opt,
            opt_prefixed: self.opt_prefixed,
            mutability: PhantomData,
        }
    }
}

impl<D> UsageBuilder<BuilderImmutable, D> {
    /// The prefix of the optional prefixed parameters.
    pub fn optional_prefixed_prefix(&self) -> (r: &Option<String>)
        ensures
            prefix_view(*r) == self.shape().prefix,
    {
        &self.prefix
    }

    /// The required parameters.
    pub fn required(&self) -> (r: &Vec<CommandParam<D>>)
        ensures
            r@ == self.shape().req,
    {
        &self.req
    }

    /// The optional parameters.
    pub fn optional(&self) -> (r: &Vec<CommandParam<D>>)
        ensures
            r@ == self.shape().opt,
    {
        &self.opt
    }

    /// The optional prefixed parameters.
    pub fn optional_prefixed(&self) -> (r: &Vec<CommandParam<D>>)
        ensures
            r@ == self.shape().opt_prefixed,
    {
        &self.opt_prefixed
    }
}

/// The parameters that follow a variant of an enum parameter: required
/// ones, then optional ones written after a prefix.
pub struct UsageSubBuilder<M, D> {
    prefix: Option<String>,
    req: Vec<CommandParam<D>>,
    opt_prefixed: Vec<CommandParam<D>>,
    mutability: PhantomData<M>,
}

impl<M, D> UsageSubBuilder<M, D> {
    /// The prefix and the parameters (there are no plain optional ones).
    pub closed spec fn shape(&self) -> UsageShape<D> {
        UsageShape { prefix: prefix_view(self.prefix), req: self.req@, opt: Seq::empty(), opt_prefixed: self.opt_prefixed@ }
    }

    /// The prefix of the optional prefixed parameters, whether or not the
    /// usage is complete.
    pub fn prefix_text(&self) -> (r: &Option<String>)
        ensures
            prefix_view(*r) == self.shape().prefix,
    {
        &self.prefix
    }

    /// The required parameters, whether or not the usage is complete.
    pub fn required_params(&self) -> (r: &Vec<CommandParam<D>>)
        ensures
            r@ == self.shape().req,
    {
        &self.req
    }

    /// The optional prefixed parameters, whether or not the usage is
    /// complete.
    pub fn prefixed_params(&self) -> (r: &Vec<CommandParam<D>>)
        ensures
            r@ == self.shape().opt_prefixed,
    {
        &self.opt_prefixed
    }
}

impl<D> UsageSubBuilder<BuilderMutable, D> {
    /// A usage with no parameters.
    pub fn new() -> (r: Self)
        ensures
            r.shape() == (UsageShape::<D> {
                prefix: None,
                req: Seq::empty(),
                opt: Seq::empty(),
                opt_prefixed: Seq::empty(),
            }),
    {
        let r = UsageSubBuilder { prefix: None, req: Vec::new(), opt_prefixed: Vec::new(), mutability: PhantomData };
        proof {
            assert(r.req@ =~= Seq::<CommandParam<D>>::empty());
            assert(r.opt_prefixed@ =~= Seq::<CommandParam<D>>::empty());
        }
        r
    }

    /// Sets the prefix written before each optional prefixed parameter.
    pub fn optional_prefixed_prefix(self, prefix: String) -> (r: Self)
        ensures
            r.shape() == (UsageShape { prefix: Some(prefix@), ..self.shape() }),
    {
        let mut s = self;
        s.prefix = Some(prefix);
        s
    }

    /// Adds a required parameter.
    pub fn required(self, param: CommandParam<D>) -> (r: Self)
        ensures
            r.shape() == (UsageShape { req: self.shape().req.push(param), ..self.shape() }),
    {
        let mut s = self;
        s.req.push(param);
        s
    }

    /// Adds an optional parameter written after the prefix, which must have
    /// been set.
    pub fn optional_prefixed(self, param: CommandParam<D>) -> (r: Self)
        requires
            self.shape().prefix is Some,
        ensures
            r.shape() == (UsageShape { opt_prefixed: self.shape().opt_prefixed.push(param), ..self.shape() }),
    {
        let mut s = self;
        s.opt_prefixed.push(param);
        s
    }

    /// The complete usage.
    pub fn finish(self) -> (r: UsageSubBuilder<BuilderImmutable, D>)
        ensures
            r.shape() == self.shape(),
    {
        UsageSubBuilder { prefix: self.prefix, req: self.req, opt_prefixed: self.opt_prefixed, mutability: PhantomData }
    }
}

impl<D> UsageSubBuilder<BuilderImmutable, D> {
    /// The prefix of the optional prefixed parameters.
    pub fn optional_prefixed_prefix(&self) -> (r: &Option<String>)
        ensures
            prefix_view(*r) == self.shape().prefix,
    {
        &self.prefix
    }

    /// The required parameters.
    pub fn required(&self) -> (r: &Vec<CommandParam<D>>)
        ensures
            r@ == self.shape().req,
    {
        &self.req
    }

    /// The optional prefixed parameters.
    pub fn optional_prefixed(&self) -> (r: &Vec<CommandParam<D>>)
        ensures
            r@ == self.shape().opt_prefixed,
    {
        &self.opt_prefixed
    }
}

// ---------------------------------------------------------------------------
// Commands
// ---------------------------------------------------------------------------

/// What a command does when it is run, on a context of type `CTX`. The
/// line's words after the command's name are handed over as its arguments.
pub trait CommandImpl<CTX> {
    /// What running the command on `ctx` with the arguments `input` comes
    /// to: success, or the text of its error. A verified implementation
    /// states it; for one that does not, it is left unknown.
    closed spec fn spec_execute(&self, ctx: &CTX, input: Seq<Seq<char>>) -> Result<(), Seq<char>> {
        vstd::pervasive::arbitrary()
    }

    /// Runs the command; an error is described by its text.
    fn execute(&self, ctx: &CTX, input: &[&str]) -> (r: Result<(), String>)
        ensures
            match self.spec_execute(ctx, input@.map_values(|s: &str| s@)) {
                Ok(_) => r is Ok,
                Err(e) => r matches Err(t) && t@ == e,
            },
    ;
}

/// A command of the command line.
#[verifier::reject_recursive_types(C)]
pub struct Command<C, D> {
    name: String,
    desc: Option<String>,
    params: Option<UsageBuilder<BuilderImmutable, D>>,
    aliases: Vec<String>,
    cmd_impl: Box<dyn CommandImpl<C>>,
}

impl<C, D> Command<C, D> {
    /// What running the command on `ctx` with the arguments `args` comes to.
    pub closed spec fn spec_run(&self, ctx: &C, args: Seq<Seq<char>>) -> Result<(), Seq<char>> {
        self.cmd_impl.spec_execute(ctx, args)
    }

    /// The command's name, in lower case.
    pub closed spec fn spec_name(&self) -> Seq<char> {
        self.name@
    }

    /// How many arguments the command needs at least.
    pub closed spec fn required_count(&self) -> nat {
        match self.params {
            Some(u) => u.shape().req.len(),
            None => 0,
        }
    }

    /// The command's description, in lower case.
    pub closed spec fn spec_desc(&self) -> Option<Seq<char>> {
        match self.desc {
            Some(d) => Some(d@),
            None => None,
        }
    }

    /// The command's other names, in lower case.
    pub closed spec fn spec_aliases(&self) -> Seq<Seq<char>> {
        self.aliases@.map_values(|a: String| a@)
    }

    /// The command's name.
    pub fn name(&self) -> (r: &String)
        ensures
            r@ == self.spec_name(),
    {
        &self.name
    }

    /// The command's description.
    pub fn desc(&self) -> (r: &Option<String>)
        ensures
            self.spec_desc() == match r {
                Some(d) => Some(d@),
                None => None::<Seq<char>>,
            },
    {
        &self.desc
    }

    /// The command's parameters.
    pub fn params(&self) -> (r: &Option<UsageBuilder<BuilderImmutable, D>>)
        ensures
            self.required_count() == match r {
                Some(u) => u.shape().req.len(),
                None => 0,
            },
    {
        &self.params
    }
}

/// A command under construction.
#[verifier::reject_recursive_types(C)]
pub struct CommandBuilder<C, D> {
    name: Option<String>,
    desc: Option<String>,
    params: Option<UsageBuilder<BuilderImmutable, D>>,
    aliases: Vec<String>,
    cmd_impl: Option<Box<dyn CommandImpl<C>>>,
}

/// What has been set of a command under construction.
pub struct CommandShape {
    pub name: Option<Seq<char>>,
    pub desc: Option<Seq<char>>,
    pub required: nat,
    pub aliases: Seq<Seq<char>>,
    pub has_impl: bool,
}

impl<C, D> CommandBuilder<C, D> {
    /// What has been set so far.
    pub closed spec fn shape(&self) -> CommandShape {
        CommandShape {
            name: match self.name {
                Some(n) => Some(n@),
                None => None,
            },
            desc: match self.desc {
                Some(d) => Some(d@),
                None => None,
            },
            required: match self.params {
                Some(u) => u.shape().req.len(),
                None => 0,
            },
            aliases: self.aliases@.map_values(|a: String| a@),
            has_impl: self.cmd_impl is Some,
        }
    }

    /// A command with nothing set.
    pub fn new() -> (r: Self)
        ensures
            r.shape() == (CommandShape {
                name: None,
                desc: None,
                required: 0,
                aliases: Seq::empty(),
                has_impl: false,
            }),
    {
        let r = CommandBuilder { name: None, desc: None, params: None, aliases: Vec::new(), cmd_impl: None };
        proof {
            assert(r.shape().aliases =~= Seq::<Seq<char>>::empty());
        }
        r
    }

    /// Sets the name, in lower case.
    pub fn name(self, name: &str) -> (r: Self)
        ensures
            r.shape() == (CommandShape { name: Some(spec_to_lowercase(name@)), ..self.shape() }),
    {
        let mut s = self;
        s.name = Some(to_lowercase(name));
        s
    }

    /// Sets the description, in lower case.
    pub fn desc(self, desc: &str) -> (r: Self)
        ensures
            r.shape() == (CommandShape { desc: Some(spec_to_lowercase(desc@)), ..self.shape() }),
    {
        let mut s = self;
        s.desc = Some(to_lowercase(desc));
        s
    }

    /// Sets the parameters.
    pub fn params(self, params: UsageBuilder<BuilderMutable, D>) -> (r: Self)
        ensures
            r.shape() == (CommandShape { required: params.shape().req.len(), ..self.shape() }),
    {
        let mut s = self;
        s.params = Some(params.finish());
        s
    }

    /// Adds another name, in lower case.
    pub fn add_alias(self, alias: &str) -> (r: Self)
        ensures
            r.shape() == (CommandShape {
                aliases: self.shape().aliases.push(spec_to_lowercase(alias@)),
                ..self.shape()
            }),
    {
        let mut s = self;
        let lower = to_lowercase(alias);
        let ghost before = s.aliases@;
        s.aliases.push(lower);
        proof {
            assert(s.aliases@.map_values(|a: String| a@) =~= before.map_values(|a: String| a@).push(
                spec_to_lowercase(alias@),
            ));
        }
        s
    }

    /// Adds other names, in lower case, in order.
    pub fn add_aliases(self, aliases: &[&str]) -> (r: Self)
        ensures
            r.shape() == (CommandShape {
                aliases: self.shape().aliases + aliases@.map_values(|a: &str| spec_to_lowercase(a@)),
                ..self.shape()
            }),
    {
        let mut s = self;
        let ghost start = s.shape();
        let mut i: usize = 0;
        while i < aliases.len()
            invariant
                i <= aliases@.len(),
                s.shape() == (CommandShape {
                    aliases: start.aliases + aliases@.take(i as int).map_values(|a: &str| spec_to_lowercase(a@)),
                    ..start
                }),
            decreases aliases.len() - i,
        {
            s = s.add_alias(aliases[i]);
            proof {
                assert(start.aliases + aliases@.take(i as int + 1).map_values(|a: &str| spec_to_lowercase(a@))
                    =~= (start.aliases + aliases@.take(i as int).map_values(|a: &str| spec_to_lowercase(a@))).push(
                    spec_to_lowercase(aliases@[i as int]@),
                ));
            }
            i = i + 1;
        }
        proof {
            assert(aliases@.take(aliases@.len() as int) =~= aliases@);
        }
        s
    }

    /// Sets what the command does.
    pub fn cmd_impl(self, cmd_impl: Box<dyn CommandImpl<C>>) -> (r: Self)
        ensures
            r.shape() == (CommandShape { has_impl: true, ..self.shape() }),
    {
        let mut s = self;
        s.cmd_impl = Some(cmd_impl);
        s
    }

    /// The command; its name and what it does must have been set.
    pub fn build(self) -> (r: Command<C, D>)
        requires
            self.shape().name is Some,
            self.shape().has_impl,
        ensures
            r.spec_name() == self.shape().name->Some_0,
            r.spec_desc() == self.shape().desc,
            r.required_count() == self.shape().required,
            r.spec_aliases() == self.shape().aliases,
    {
        Command {
            name: self.name.unwrap(),
            desc: self.desc,
            params: self.params,
            aliases: self.aliases,
            cmd_impl: self.cmd_impl.unwrap(),
        }
    }
}

// ---------------------------------------------------------------------------
// Running a line
// ---------------------------------------------------------------------------

/// Why a line of input could not be run.
pub enum InputError {
    /// The command needs more arguments than the line has.
    ArgumentCnt { name: String, expected: usize, got: usize },
    /// No command has the line's first word, in lower case, as its name.
    CommandNotFound { name: String },
    /// The line was empty.
    InputEmpty,
    /// The command ran and failed.
    ExecError { name: String, error: String },
}

/// The commands of a command line, looked up by name.
#[verifier::reject_recursive_types(C)]
pub struct CLICore<C, D> {
    cmds: Vec<Command<C, D>>,
}

/// The last position in `names` that holds `name`, if any.
pub open spec fn last_with_name(names: Seq<Seq<char>>, name: Seq<char>) -> Option<int>
    decreases names.len(),
{
    if names.len() == 0 {
        None
    } else if names.last() == name {
        Some(names.len() - 1)
    } else {
        last_with_name(names.drop_last(), name)
    }
}

/// `last_with_name` finds the last position that holds the name, and finds
/// none when no position does.
pub proof fn lemma_last_with_name(names: Seq<Seq<char>>, name: Seq<char>)
    ensures
        match last_with_name(names, name) {
            Some(i) => 0 <= i < names.len() && names[i] == name && forall|j: int|
                i < j < names.len() ==> names[j] != name,
            None => forall|j: int| 0 <= j < names.len() ==> names[j] != name,
        },
    decreases names.len(),
{
    if names.len() > 0 && names.last() != name {
        lemma_last_with_name(names.drop_last(), name);
        assert forall|j: int| 0 <= j < names.len() - 1 implies names[j] == names.drop_last()[j] by {}
    }
}

/// What a line names: the position of the command and the arguments to run
/// it with, or why it cannot be run. The command is the first word, in lower
/// case; when several commands have that name the one added last is meant.
pub open spec fn spec_resolve(names: Seq<Seq<char>>, required: Seq<nat>, line: Seq<char>) -> Result<(int, Seq<Seq<char>>), (Seq<char>, Option<(nat, nat)>)> {
    let words = split_on(line, ' ');
    let name = spec_to_lowercase(words[0]);
    match last_with_name(names, name) {
        None => Err((name, None)),
        Some(i) => if required[i] > words.len() - 1 {
            Err((name, Some((required[i], (words.len() - 1) as nat))))
        } else {
            Ok((i, words.drop_first()))
        },
    }
}

impl<C, D> CLICore<C, D> {
    /// The names of the commands, in the order they were added.
    pub closed spec fn names(&self) -> Seq<Seq<char>> {
        self.cmds@.map_values(|c: Command<C, D>| c.spec_name())
    }

    /// How many arguments each command needs, in the order they were added.
    pub closed spec fn required(&self) -> Seq<nat> {
        self.cmds@.map_values(|c: Command<C, D>| c.required_count())
    }

    /// What running the command at position `i` on `ctx` with the arguments
    /// `args` comes to.
    pub closed spec fn run_outcome(&self, i: int, ctx: &C, args: Seq<Seq<char>>) -> Result<(), Seq<char>> {
        self.cmds@[i].spec_run(ctx, args)
    }

    /// A command line with the given commands.
    pub fn new(cmds: Vec<Command<C, D>>) -> (r: Self)
        ensures
            r.names() == cmds@.map_values(|c: Command<C, D>| c.spec_name()),
            r.required() == cmds@.map_values(|c: Command<C, D>| c.required_count()),
    {
        CLICore { cmds }
    }

    /// The commands.
    pub fn cmds(&self) -> (r: &Vec<Command<C, D>>)
        ensures
            r@.map_values(|c: Command<C, D>| c.spec_name()) == self.names(),
    {
        &self.cmds
    }

    /// The last command added with the given name.
    fn find(&self, name: &String) -> (r: Option<usize>)
        ensures
            match r {
                Some(i) => last_with_name(self.names(), name@) == Some(i as int) && i < self.names().len(),
                None => last_with_name(self.names(), name@) is None,
            },
    {
        proof {
            lemma_last_with_name(self.names(), name@);
        }
        let mut i: usize = self.cmds.len();
        while i > 0
            invariant
                i <= self.cmds@.len(),
                forall|j: int| i <= j < self.cmds@.len() ==> self.names()[j] != name@,
            decreases i,
        {
            i = i - 1;
            if self.cmds[i].name == *name {
                proof {
                    let names = self.names();
                    lemma_last_with_name(names, name@);
                    assert(names[i as int] == name@);
                    if let Some(k) = last_with_name(names, name@) {
                        if k < i {
                            assert(names[i as int] != name@);
                        } else if k > i {
                            assert(names[k] != name@);
                        }
                    }
                }
                return Some(i);
            }
        }
        None
    }

    /// Splits a line into the command it names and that command's
    /// arguments.
    pub fn resolve<'a>(&self, line: &'a str) -> (r: Result<(usize, Vec<&'a str>), InputError>)
        ensures
            r matches Ok((j, _)) ==> j < self.names().len(),
            match spec_resolve(self.names(), self.required(), line@) {
                Ok((i, args)) => r matches Ok((j, a)) && j == i && a@.map_values(|p: &str| p@) == args,
                Err((name, None)) => r matches Err(InputError::CommandNotFound { name: n }) && n@ == name,
                Err((name, Some((expected, got)))) => r matches Err(InputError::ArgumentCnt { name: n, expected: e, got: g })
                    && n@ == name && e == expected && g == got,
            },
    {
        let mut parts = split_spaces(line);
        proof {
            lemma_split_on_nonempty(line@, ' ');
        }
        let ghost words = parts@.map_values(|p: &str| p@);
        let first = parts.remove(0);
        let raw_cmd = to_lowercase(first);
        proof {
            assert(parts@.map_values(|p: &str| p@) =~= words.drop_first());
        }
        match self.find(&raw_cmd) {
            None => Err(InputError::CommandNotFound { name: raw_cmd }),
            Some(i) => {
                let expected = match self.cmds[i].params() {
                    Some(u) => u.required().len(),
                    None => 0,
                };
                if expected > parts.len() {
                    Err(InputError::ArgumentCnt { name: raw_cmd, expected, got: parts.len() })
                } else {
                    Ok((i, parts))
                }
            },
        }
    }

    /// Runs a line: its first word, in lower case, names the command, and
    /// the words after it are the command's arguments. Fails when no command
    /// has that name or the line has fewer arguments than the command needs;
    /// otherwise runs the command, and fails when the command does.
    pub fn process(&self, ctx: &C, input: &str) -> (r: Result<(), InputError>)
        ensures
            match spec_resolve(self.names(), self.required(), input@) {
                Ok((i, args)) => match self.run_outcome(i, ctx, args) {
                    Ok(_) => r is Ok,
                    Err(e) => r matches Err(InputError::ExecError { name: n, error: t }) && n@ == spec_to_lowercase(
                        split_on(input@, ' ')[0],
                    ) && t@ == e,
                },
                Err((name, None)) => r matches Err(InputError::CommandNotFound { name: n }) && n@ == name,
                Err((name, Some((expected, got)))) => r matches Err(InputError::ArgumentCnt { name: n, expected: e, got: g })
                    && n@ == name && e == expected && g == got,
            },
    {
        match self.resolve(input) {
            Err(e) => Err(e),
            Ok((i, args)) => {
                proof {
                    lemma_last_with_name(self.names(), spec_to_lowercase(split_on(input@, ' ')[0]));
                }
                let cmd = &self.cmds[i];
                match cmd.cmd_impl.execute(ctx, args.as_slice()) {
                    Ok(()) => Ok(()),
                    Err(error) => Err(InputError::ExecError { name: cmd.name.clone(), error }),
                }
            },
        }
    }
}

} // verus!
