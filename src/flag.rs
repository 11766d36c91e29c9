use crate::error::CliError;
use crate::text::{char_string, same_text};
use vstd::prelude::*;

verus! {

/// What a flag accepts as its argument.
#[derive(Clone, Copy, Debug, PartialEq, Eq, Structural)]
pub enum ArgSpec {
    NoArg,
    Optional,
    Required,
}

/// Whether `t` has the shape of a long flag: `--` followed by at least one character.
pub open spec fn is_long_text(t: Seq<char>) -> bool {
    t.len() >= 3 && t[0] == '-' && t[1] == '-'
}

/// Whether `t` has the shape of a short flag: `-` followed by at least one character.
pub open spec fn is_short_text(t: Seq<char>) -> bool {
    t.len() >= 2 && t[0] == '-'
}

pub open spec fn is_flag_text(t: Seq<char>) -> bool {
    is_long_text(t) || is_short_text(t)
}

/// Check if a string is a long flag.
pub fn is_long(flag_text: &str) -> (r: bool)
    ensures
        r == is_long_text(flag_text@),
{
    let n = flag_text.unicode_len();
    n >= 3 && flag_text.get_char(0) == '-' && flag_text.get_char(1) == '-'
}

/// Check if a string is a short flag.
pub fn is_short(flag_text: &str) -> (r: bool)
    ensures
        r == is_short_text(flag_text@),
{
    let n = flag_text.unicode_len();
    n >= 2 && flag_text.get_char(0) == '-'
}

/// Check if a string is a flag.
pub fn is_flag(flag_text: &str) -> (r: bool)
    ensures
        r == is_flag_text(flag_text@),
{
    is_long(flag_text) || is_short(flag_text)
}

/// The mathematical form of an [`Arg`].
pub enum ArgView {
    NoArg,
    Optional(Option<Seq<char>>),
    Required(Seq<char>),
}

/// A bound flag argument, tagged by the arity that it satisfies.
#[derive(Clone, Debug, PartialEq, Eq)]
pub enum Arg {
    NoArg,
    Optional(Option<String>),
    Required(String),
}

impl View for Arg {
    type V = ArgView;

    open spec fn view(&self) -> ArgView {
        match self {
            Arg::NoArg => ArgView::NoArg,
            Arg::Optional(v) => ArgView::Optional(
                match v {
                    Some(s) => Some(s@),
                    None => None,
                },
            ),
            Arg::Required(s) => ArgView::Required(s@),
        }
    }
}

impl ArgView {
    /// The text that the argument carries, if any.
    pub open spec fn raw(self) -> Option<Seq<char>> {
        match self {
            ArgView::NoArg => None,
            ArgView::Optional(v) => v,
            ArgView::Required(s) => Some(s),
        }
    }

    /// Whether this argument has the variant that `spec` asks for.
    pub open spec fn fits(self, spec: ArgSpec) -> bool {
        match self {
            ArgView::NoArg => spec == ArgSpec::NoArg,
            ArgView::Optional(_) => spec == ArgSpec::Optional,
            ArgView::Required(_) => spec == ArgSpec::Required,
        }
    }
}

impl Arg {
    /// The text that the argument carries, if any.
    pub fn raw(&self) -> (r: Option<String>)
        ensures
            match r {
                Some(s) => self@.raw() == Some(s@),
                None => self@.raw() is None,
            },
    {
        match self {
            Arg::Optional(val) => match val {
                Some(s) => Some(s.clone()),
                None => None,
            },
            Arg::Required(s) => Some(s.clone()),
            Arg::NoArg => None,
        }
    }

    /// The carried text converted to `T`; `Ok(None)` where there is none.
    pub fn get<T: From<String>>(&self) -> (r: Result<Option<T>, CliError>)
        ensures
            r is Ok,
            self@.raw() is None <==> r->Ok_0 is None,
            forall|v: T| r == Ok::<Option<T>, CliError>(Some(v)) ==> exists|x: String|
                Some(x@) == self@.raw() && call_ensures(T::from, (x,), v),
    {
        let raw = self.raw();
        match raw {
            None => Ok(None),
            Some(s) => Ok(Some(T::from(s))),
        }
    }
}

/// The identity of a flag: its long name and its short character together.
#[derive(Clone, Debug, Hash)]
pub struct FlagId {
    name: String,
    short: char,
}

impl View for FlagId {
    type V = (Seq<char>, char);

    closed spec fn view(&self) -> (Seq<char>, char) {
        (self.name@, self.short)
    }
}

impl FlagId {
    pub fn new(name: &str, short: char) -> (r: FlagId)
        ensures
            r@ == (name@, short),
    {
        FlagId { name: name.to_owned(), short }
    }

    pub fn name(&self) -> (r: &str)
        ensures
            r@ == self@.0,
    {
        self.name.as_str()
    }

    pub fn short(&self) -> (r: char)
        ensures
            r == self@.1,
    {
        self.short
    }
}

impl PartialEq for FlagId {
    fn eq(&self, other: &FlagId) -> (r: bool)
        ensures
            r == (self@ == other@),
    {
        self.short == other.short && self.name == other.name
    }
}

impl vstd::std_specs::cmp::PartialEqSpecImpl for FlagId {
    open spec fn obeys_eq_spec() -> bool {
        true
    }

    open spec fn eq_spec(&self, other: &FlagId) -> bool {
        self@ == other@
    }
}

impl Eq for FlagId {}

/// The mathematical form of a [`FlagQuery`].
pub enum FlagQueryView {
    Name(Seq<char>),
    Short(char),
}

impl FlagQueryView {
    /// Whether the identity `id` answers this query: by its long name or by its short character.
    pub open spec fn matches(self, id: (Seq<char>, char)) -> bool {
        match self {
            FlagQueryView::Name(n) => n == id.0,
            FlagQueryView::Short(c) => c == id.1,
        }
    }

    /// The flag as a user writes it: `--name` or `-c`.
    pub open spec fn text(self) -> Seq<char> {
        match self {
            FlagQueryView::Name(n) => seq!['-', '-'] + n,
            FlagQueryView::Short(c) => seq!['-', c],
        }
    }
}

/// A flag as written on the command line, to be looked up by long name or by short character.
#[derive(Clone, Debug, PartialEq, Eq)]
pub enum FlagQuery {
    Name(String),
    Short(char),
}

impl View for FlagQuery {
    type V = FlagQueryView;

    open spec fn view(&self) -> FlagQueryView {
        match self {
            FlagQuery::Name(s) => FlagQueryView::Name(s@),
            FlagQuery::Short(c) => FlagQueryView::Short(*c),
        }
    }
}

impl FlagQuery {
    /// The flag as a user writes it: `--name` or `-c`.
    pub fn text(&self) -> (r: String)
        ensures
            r@ == self@.text(),
    {
        let mut r = char_string('-');
        match self {
            FlagQuery::Name(n) => {
                r.append("-");
                r.append(n.as_str());
            },
            FlagQuery::Short(c) => {
                let cs = char_string(*c);
                r.append(cs.as_str());
            },
        }
        proof {
            reveal_strlit("-");
        }
        assert(r@ =~= self@.text());
        r
    }
}

/// The query that a token stands for, if it has the shape of a flag.
pub open spec fn query_of(t: Seq<char>) -> Option<FlagQueryView> {
    if is_long_text(t) {
        Some(FlagQueryView::Name(t.skip(2)))
    } else if is_short_text(t) {
        Some(FlagQueryView::Short(t[1]))
    } else {
        None
    }
}

/// Convert a token to a flag query; `None` if the token is not a flag.
pub fn extract_flag(flag_text: &str) -> (r: Option<FlagQuery>)
    ensures
        match r {
            Some(q) => query_of(flag_text@) == Some(q@),
            None => query_of(flag_text@) is None,
        },
{
    if is_long(flag_text) {
        let n = flag_text.unicode_len();
        let name = flag_text.substring_char(2, n);
        Some(FlagQuery::Name(name.to_owned()))
    } else if is_short(flag_text) {
        // A short flag is its first character alone: `-abc` and `-avalue` are not taken apart.
        Some(FlagQuery::Short(flag_text.get_char(1)))
    } else {
        None
    }
}

/// The mathematical form of a [`FlagSpec`].
pub struct FlagSpecView {
    pub name: Seq<char>,
    pub short: char,
    pub arg_spec: ArgSpec,
    pub help: Seq<char>,
}

impl FlagSpecView {
    pub open spec fn id(self) -> (Seq<char>, char) {
        (self.name, self.short)
    }
}

/// A flag that a command accepts: its identity, the argument it takes, and its help text.
#[derive(Clone, Debug)]
pub struct FlagSpec {
    id: FlagId,
    help: String,
    arg_spec: ArgSpec,
}

impl View for FlagSpec {
    type V = FlagSpecView;

    closed spec fn view(&self) -> FlagSpecView {
        FlagSpecView { name: self.id@.0, short: self.id@.1, arg_spec: self.arg_spec, help: self.help@ }
    }
}

impl FlagSpec {
    pub fn new(name: &str, short: char, arg_spec: ArgSpec, help: &str) -> (r: FlagSpec)
        ensures
            r@ == (FlagSpecView { name: name@, short, arg_spec, help: help@ }),
    {
        let id = FlagId::new(name, short);
        FlagSpec { id, arg_spec, help: help.to_owned() }
    }

    pub fn id(&self) -> (r: &FlagId)
        ensures
            r@ == self@.id(),
    {
        &self.id
    }

    pub fn get_arg_spec(&self) -> (r: &ArgSpec)
        ensures
            *r == self@.arg_spec,
    {
        &self.arg_spec
    }

    pub fn help(&self) -> (r: String)
        ensures
            r@ == self@.help,
    {
        self.help.clone()
    }
}

/// Whether no two entries share an identity.
pub open spec fn unique_ids(specs: Seq<FlagSpecView>) -> bool {
    forall|i: int, j: int|
        0 <= i < specs.len() && 0 <= j < specs.len() && #[trigger] specs[i].id() == #[trigger] specs[j].id()
            ==> i == j
}

/// The set of flags that a command accepts, unique by identity, in order of first insertion.
#[derive(Clone, Debug)]
pub struct FlagSpecSet {
    specs: Vec<FlagSpec>,
}

impl View for FlagSpecSet {
    type V = Seq<FlagSpecView>;

    closed spec fn view(&self) -> Seq<FlagSpecView> {
        self.specs@.map_values(|s: FlagSpec| s@)
    }
}

/// `specs` with `s` in place of the entry of the same identity, or with `s` added at the end.
pub open spec fn put_spec(specs: Seq<FlagSpecView>, s: FlagSpecView) -> Seq<FlagSpecView> {
    if exists|i: int| 0 <= i < specs.len() && specs[i].id() == s.id() {
        specs.update(choose|i: int| 0 <= i < specs.len() && specs[i].id() == s.id(), s)
    } else {
        specs.push(s)
    }
}

impl FlagSpecSet {
    pub open spec fn wf(&self) -> bool {
        unique_ids(self@)
    }

    pub fn new() -> (r: FlagSpecSet)
        ensures
            r@ == Seq::<FlagSpecView>::empty(),
            r.wf(),
    {
        FlagSpecSet { specs: Vec::new() }
    }

    pub fn len(&self) -> (r: usize)
        ensures
            r == self@.len(),
    {
        self.specs.len()
    }

    pub fn get(&self, i: usize) -> (r: &FlagSpec)
        requires
            i < self@.len(),
        ensures
            r@ == self@[i as int],
    {
        &self.specs[i]
    }

    /// Adds `spec`; an entry with the same identity is replaced. Returns whether the identity was new.
    pub fn insert(&mut self, spec: FlagSpec) -> (r: bool)
        requires
            old(self).wf(),
        ensures
            final(self).wf(),
            final(self)@ == put_spec(old(self)@, spec@),
            r == !(exists|i: int| 0 <= i < old(self)@.len() && old(self)@[i].id() == spec@.id()),
    {
        let ghost before = self@;
        let mut i: usize = 0;
        while i < self.specs.len()
            invariant
                self@ == before,
                before == old(self)@,
                unique_ids(before),
                0 <= i <= self@.len(),
                forall|j: int| 0 <= j < i ==> self@[j].id() != spec@.id(),
            decreases self@.len() - i,
        {
            let same = self.specs[i].id == spec.id;
            assert(self@[i as int] == self.specs@[i as int]@);
            assert(same == (self@[i as int].id() == spec@.id()));
            if same {
                let ghost k = i as int;
                assert(before[k].id() == spec@.id());
                self.specs.set(i, spec);
                proof {
                    let c = choose|c: int| 0 <= c < before.len() && before[c].id() == spec@.id();
                    assert(before[c].id() == before[k].id());
                    assert(self@ =~= before.update(k, spec@));
                    assert(unique_ids(self@)) by {
                        assert forall|a: int, b: int|
                            0 <= a < self@.len() && 0 <= b < self@.len() && #[trigger] self@[a].id()
                                == #[trigger] self@[b].id() implies a == b by {
                            if a == k || b == k {
                                if a != k {
                                    assert(before[a].id() == before[k].id());
                                }
                                if b != k {
                                    assert(before[b].id() == before[k].id());
                                }
                            }
                        }
                    }
                }
                return false;
            }
            i = i + 1;
        }
        self.specs.push(spec);
        assert(self@ =~= before.push(spec@));
        true
    }
}

/// The first entry of `specs` that answers `q`.
pub open spec fn find_spec(q: FlagQueryView, specs: Seq<FlagSpecView>) -> Option<FlagSpecView>
    decreases specs.len(),
{
    if specs.len() == 0 {
        None
    } else if q.matches(specs[0].id()) {
        Some(specs[0])
    } else {
        find_spec(q, specs.drop_first())
    }
}

/// The first flag specification in `haystack` that answers `needle`.
pub fn query_flag_spec<'a>(needle: &FlagQuery, haystack: &'a FlagSpecSet) -> (r: Option<&'a FlagSpec>)
    ensures
        match r {
            Some(s) => find_spec(needle@, haystack@) == Some(s@),
            None => find_spec(needle@, haystack@) is None,
        },
{
    let ghost all = haystack@;
    assert(all.skip(0) =~= all);
    let mut i: usize = 0;
    while i < haystack.len()
        invariant
            all == haystack@,
            0 <= i <= all.len(),
            find_spec(needle@, all) == find_spec(needle@, all.skip(i as int)),
        decreases all.len() - i,
    {
        let entry = haystack.get(i);
        let hit = match needle {
            FlagQuery::Name(s) => same_text(s.as_str(), entry.id().name()),
            FlagQuery::Short(c) => *c == entry.id().short(),
        };
        assert(all.skip(i as int)[0] == all[i as int]);
        if hit {
            return Some(entry);
        }
        assert(all.skip(i as int).drop_first() =~= all.skip(i + 1));
        i = i + 1;
    }
    assert(all.skip(i as int) =~= Seq::<FlagSpecView>::empty());
    None
}

/// The mathematical form of a [`Flag`].
pub struct FlagView {
    pub spec: FlagSpecView,
    pub arg: ArgView,
}

impl FlagView {
    pub open spec fn id(self) -> (Seq<char>, char) {
        self.spec.id()
    }
}

/// A flag as supplied on one command line: the specification it answers and its bound argument.
#[derive(Clone, Debug)]
pub struct Flag<'a> {
    spec: &'a FlagSpec,
    arg: Arg,
}

impl<'a> View for Flag<'a> {
    type V = FlagView;

    closed spec fn view(&self) -> FlagView {
        FlagView { spec: self.spec@, arg: self.arg@ }
    }
}

impl<'a> Flag<'a> {
    /// Whether the argument has the variant that the specification's arity asks for.
    pub open spec fn wf(&self) -> bool {
        self@.arg.fits(self@.spec.arg_spec)
    }

    pub fn new(spec: &'a FlagSpec, arg: Arg) -> (r: Flag<'a>)
        requires
            arg@.fits(spec@.arg_spec),
        ensures
            r@ == (FlagView { spec: spec@, arg: arg@ }),
            r.wf(),
    {
        Flag { spec, arg }
    }

    pub fn spec(&self) -> (r: &'a FlagSpec)
        ensures
            r@ == self@.spec,
    {
        self.spec
    }

    /// Replaces the argument's value, keeping its variant. A flag that takes no argument
    /// refuses a value.
    pub fn set_arg(&mut self, arg: Option<String>) -> (r: Result<(), &str>)
        requires
            old(self).wf(),
            old(self)@.spec.arg_spec == ArgSpec::Required ==> arg is Some,
        ensures
            final(self).wf(),
            final(self)@.spec == old(self)@.spec,
            r is Err <==> (old(self)@.spec.arg_spec == ArgSpec::NoArg && arg is Some),
            r is Err ==> final(self)@ == old(self)@,
            r is Ok ==> final(self)@.arg == match old(self)@.spec.arg_spec {
                ArgSpec::NoArg => ArgView::NoArg,
                ArgSpec::Optional => ArgView::Optional(
                    match arg {
                        Some(s) => Some(s@),
                        None => None,
                    },
                ),
                ArgSpec::Required => ArgView::Required(arg->Some_0@),
            },
    {
        match self.arg {
            Arg::Optional(_) => {
                self.arg = Arg::Optional(arg);
            },
            Arg::Required(_) => {
                match arg {
                    Some(s) => {
                        self.arg = Arg::Required(s);
                    },
                    None => {},
                }
            },
            Arg::NoArg => {
                if arg.is_some() {
                    return Err("a flag that takes no argument was given a value");
                }
                self.arg = Arg::NoArg;
            },
        }
        Ok(())
    }

    pub fn get_arg(&self) -> (r: &Arg)
        ensures
            r@ == self@.arg,
    {
        &self.arg
    }
}

/// Whether no two bound flags share an identity, and each argument fits its specification.
pub open spec fn flags_wf(flags: Seq<FlagView>) -> bool {
    &&& forall|i: int, j: int|
        0 <= i < flags.len() && 0 <= j < flags.len() && #[trigger] flags[i].id() == #[trigger] flags[j].id()
            ==> i == j
    &&& forall|i: int| 0 <= i < flags.len() ==> #[trigger] flags[i].arg.fits(flags[i].spec.arg_spec)
}

/// `flags` with `f` in place of the flag of the same identity, or with `f` added at the end.
pub open spec fn put_flag(flags: Seq<FlagView>, f: FlagView) -> Seq<FlagView> {
    if exists|i: int| 0 <= i < flags.len() && flags[i].id() == f.id() {
        flags.update(choose|i: int| 0 <= i < flags.len() && flags[i].id() == f.id(), f)
    } else {
        flags.push(f)
    }
}

/// The flags bound on one command line, at most one for each identity.
#[derive(Clone, Debug)]
pub struct FlagSet<'a> {
    flags: Vec<Flag<'a>>,
}

impl<'a> View for FlagSet<'a> {
    type V = Seq<FlagView>;

    closed spec fn view(&self) -> Seq<FlagView> {
        self.flags@.map_values(|f: Flag<'a>| f@)
    }
}

impl<'a> FlagSet<'a> {
    pub open spec fn wf(&self) -> bool {
        flags_wf(self@)
    }

    pub fn new() -> (r: FlagSet<'a>)
        ensures
            r@ == Seq::<FlagView>::empty(),
            r.wf(),
    {
        FlagSet { flags: Vec::new() }
    }

    pub fn len(&self) -> (r: usize)
        ensures
            r == self@.len(),
    {
        self.flags.len()
    }

    pub fn get(&self, i: usize) -> (r: &Flag<'a>)
        requires
            i < self@.len(),
        ensures
            r@ == self@[i as int],
    {
        &self.flags[i]
    }

    /// Adds `flag`, replacing a flag of the same identity, which is handed back.
    pub fn replace(&mut self, flag: Flag<'a>) -> (r: Option<Flag<'a>>)
        requires
            old(self).wf(),
            flag.wf(),
        ensures
            final(self).wf(),
            final(self)@ == put_flag(old(self)@, flag@),
            match r {
                Some(g) => exists|i: int| 0 <= i < old(self)@.len() && old(self)@[i] == g@ && g@.id() == flag@.id(),
                None => !(exists|i: int| 0 <= i < old(self)@.len() && old(self)@[i].id() == flag@.id()),
            },
    {
        let ghost before = self@;
        let mut i: usize = 0;
        while i < self.flags.len()
            invariant
                self@ == before,
                before == old(self)@,
                flags_wf(before),
                flag.wf(),
                0 <= i <= self@.len(),
                forall|j: int| 0 <= j < i ==> self@[j].id() != flag@.id(),
            decreases self@.len() - i,
        {
            let same = self.flags[i].spec.id == flag.spec.id;
            assert(self@[i as int] == self.flags@[i as int]@);
            if same {
                let ghost k = i as int;
                assert(before[k].id() == flag@.id());
                let ghost fv = flag@;
                assert(fv.arg.fits(fv.spec.arg_spec));
                let mut prev = flag;
                self.flags.set_and_swap(i, &mut prev);
                proof {
                    assert(self@ =~= before.update(k, fv));
                    let c = choose|c: int| 0 <= c < before.len() && before[c].id() == fv.id();
                    assert(before[c].id() == before[k].id());
                    assert forall|a: int, b: int|
                        0 <= a < self@.len() && 0 <= b < self@.len() && #[trigger] self@[a].id()
                            == #[trigger] self@[b].id() implies a == b by {
                        if a != k && b == k {
                            assert(before[a].id() == before[k].id());
                        }
                        if a == k && b != k {
                            assert(before[b].id() == before[k].id());
                        }
                    }
                    assert forall|a: int| 0 <= a < self@.len() implies #[trigger] self@[a].arg.fits(
                        self@[a].spec.arg_spec,
                    ) by {
                        if a != k {
                            assert(self@[a] == before[a]);
                        } else {
                            assert(self@[a] == fv);
                        }
                    }
                }
                return Some(prev);
            }
            i = i + 1;
        }
        self.flags.push(flag);
        assert(self@ =~= before.push(flag@));
        None
    }
}

/// The first bound flag in `flags` that answers `q`.
pub open spec fn find_flag(q: FlagQueryView, flags: Seq<FlagView>) -> Option<FlagView>
    decreases flags.len(),
{
    if flags.len() == 0 {
        None
    } else if q.matches(flags[0].id()) {
        Some(flags[0])
    } else {
        find_flag(q, flags.drop_first())
    }
}

/// The first bound flag in `haystack` that answers `needle`.
pub fn query_flag<'a>(needle: &FlagQuery, haystack: &'a FlagSet<'a>) -> (r: Option<&'a Flag<'a>>)
    ensures
        match r {
            Some(f) => find_flag(needle@, haystack@) == Some(f@),
            None => find_flag(needle@, haystack@) is None,
        },
{
    let ghost all = haystack@;
    assert(all.skip(0) =~= all);
    let mut i: usize = 0;
    while i < haystack.len()
        invariant
            all == haystack@,
            0 <= i <= all.len(),
            find_flag(needle@, all) == find_flag(needle@, all.skip(i as int)),
        decreases all.len() - i,
    {
        let entry = haystack.get(i);
        let spec = entry.spec();
        let hit = match needle {
            FlagQuery::Name(s) => same_text(s.as_str(), spec.id().name()),
            FlagQuery::Short(c) => *c == spec.id().short(),
        };
        assert(all.skip(i as int)[0] == all[i as int]);
        if hit {
            return Some(entry);
        }
        assert(all.skip(i as int).drop_first() =~= all.skip(i + 1));
        i = i + 1;
    }
    assert(all.skip(i as int) =~= Seq::<FlagView>::empty());
    None
}

/// A token had the shape of a flag that the command does not accept.
#[derive(Clone, Debug, PartialEq, Eq)]
pub struct UnknownFlagError(pub FlagQuery);

impl UnknownFlagError {
    pub open spec fn text(&self) -> Seq<char> {
        "unrecognized flag '"@ + self.0@.text() + "'"@
    }

    pub fn message(&self) -> (r: String)
        ensures
            r@ == self.text(),
    {
        let mut r = String::from_str("unrecognized flag '");
        let t = self.0.text();
        r.append(t.as_str());
        r.append("'");
        r
    }
}

/// A flag that requires an argument stood last, or right before another flag.
#[derive(Clone, Debug, PartialEq, Eq)]
pub struct FlagMissingArgError(pub FlagQuery);

impl FlagMissingArgError {
    pub open spec fn text(&self) -> Seq<char> {
        "missing argument for flag '"@ + self.0@.text() + "'"@
    }

    pub fn message(&self) -> (r: String)
        ensures
            r@ == self.text(),
    {
        let mut r = String::from_str("missing argument for flag '");
        let t = self.0.text();
        r.append(t.as_str());
        r.append("'");
        r
    }
}

} // verus!
