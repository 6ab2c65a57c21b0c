//! Command line parsing for the boot manager's serial console.
//!
//! A command line is a command name followed by arguments separated by
//! spaces. An argument is either a flag (`name`) or a pair (`name=value`).
//! Lines are handled as bytes; the serial side that reads them, and the
//! commands that act on them, live with the caller.

use vstd::prelude::*;
use crate::error::Error as ApplicationError;

verus! {

/// What can go wrong while reading, parsing or running a command.
#[derive(Debug, Copy, Clone, PartialEq)]
pub enum Error {
    CommandEmpty,
    CommandUnknown,
    UnexpectedArguments,
    ArgumentOutOfRange,
    MalformedArguments,
    MissingArgument,
    CharactersNotAllowed,
    BadCommandEncoding,
    DuplicateArguments,
    SerialBufferOverflow,
    SerialReadError,
    ApplicationError(ApplicationError),
}

/// The line the console prints for an error, if it prints one.
pub open spec fn message_of(e: Error) -> Option<&'static str> {
    match e {
        Error::BadCommandEncoding => Some("[CLI Error] Bad command encoding"),
        Error::CharactersNotAllowed => Some("[CLI Error] Illegal characters in command"),
        Error::MalformedArguments => Some("[CLI Error] Malformed command arguments"),
        Error::SerialBufferOverflow => Some("[CLI Error] Command string too long"),
        Error::MissingArgument => Some("[CLI Error] Command missing an argument"),
        Error::DuplicateArguments => Some("[CLI Error] Command contains duplicate arguments"),
        Error::UnexpectedArguments => Some("[CLI Error] Command contains an unexpected argument"),
        Error::ArgumentOutOfRange => Some("[CLI Error] Argument is out of valid range"),
        Error::SerialReadError => Some("[CLI Error] Serial read failed"),
        Error::CommandUnknown => Some("Unknown command"),
        Error::CommandEmpty => None,
        Error::ApplicationError(_) => None,
    }
}

impl Error {
    /// The line the console prints for this error, if it prints one.
    pub fn message(&self) -> (r: Option<&'static str>)
        ensures
            r == message_of(*self),
    {
        match self {
            Error::BadCommandEncoding => Some("[CLI Error] Bad command encoding"),
            Error::CharactersNotAllowed => Some("[CLI Error] Illegal characters in command"),
            Error::MalformedArguments => Some("[CLI Error] Malformed command arguments"),
            Error::SerialBufferOverflow => Some("[CLI Error] Command string too long"),
            Error::MissingArgument => Some("[CLI Error] Command missing an argument"),
            Error::DuplicateArguments => Some("[CLI Error] Command contains duplicate arguments"),
            Error::UnexpectedArguments => Some("[CLI Error] Command contains an unexpected argument"),
            Error::ArgumentOutOfRange => Some("[CLI Error] Argument is out of valid range"),
            Error::SerialReadError => Some("[CLI Error] Serial read failed"),
            Error::CommandUnknown => Some("Unknown command"),
            Error::CommandEmpty => None,
            Error::ApplicationError(_) => None,
        }
    }
}

impl Error {
    /// Wraps an error of the boot manager.
    pub fn from_application(e: ApplicationError) -> (r: Self)
        ensures
            r == Error::ApplicationError(e),
    {
        Error::ApplicationError(e)
    }
}

/// Separates an argument's name from its value.
pub const ARGUMENT_SEPARATOR: u8 = 0x3D;
/// Separates tokens.
pub const SPACE: u8 = 0x20;
/// Ends a command line.
pub const LINE_TERMINATOR: u8 = 0x0A;
/// Greeting shown when the console starts.
pub const DEFAULT_GREETING: &'static str = "--=Loadstone demo app CLI + Boot Manager=--";
/// Shown before each command.
pub const PROMPT: &'static str = "\n> ";
/// Longest command line the console reads.
pub const BUFFER_SIZE: usize = 256;

/// A command argument: a flag, or a name with a value.
#[derive(Debug, Clone, PartialEq, Eq)]
pub enum Argument {
    Single(Vec<u8>),
    Pair(Vec<u8>, Vec<u8>),
}

/// An argument as its name and, for a pair, its value.
pub open spec fn argument_view(a: Argument) -> (Seq<u8>, Option<Seq<u8>>) {
    match a {
        Argument::Single(n) => (n@, None),
        Argument::Pair(n, v) => (n@, Some(v@)),
    }
}

impl Argument {
    /// The argument's name.
    pub fn name(&self) -> (r: &Vec<u8>)
        ensures
            r@ == argument_view(*self).0,
    {
        match self {
            Argument::Single(n) => n,
            Argument::Pair(n, _) => n,
        }
    }
}

/// Trailing bytes a command line loses: ASCII control characters and
/// ASCII whitespace.
pub open spec fn is_trailing(c: u8) -> bool {
    c < 0x20 || c == 0x7F || c == SPACE
}

/// Bytes a command may hold: ASCII letters and digits, space, `=` and `_`.
pub open spec fn is_allowed(c: u8) -> bool {
    ||| 0x30 <= c <= 0x39
    ||| 0x41 <= c <= 0x5A
    ||| 0x61 <= c <= 0x7A
    ||| c == SPACE
    ||| c == ARGUMENT_SEPARATOR
    ||| c == 0x5F
}

/// Length of `s` without its trailing control characters and whitespace.
pub open spec fn trim_len(s: Seq<u8>) -> nat
    decreases s.len(),
{
    if s.len() == 0 {
        0
    } else if is_trailing(s.last()) {
        trim_len(s.drop_last())
    } else {
        s.len()
    }
}

/// The space separated words of `s`.
pub open spec fn words(s: Seq<u8>) -> Seq<Seq<u8>>
    decreases s.len(),
{
    if s.len() == 0 {
        seq![]
    } else {
        let init = words(s.drop_last());
        let c = s.last();
        if c == SPACE {
            init
        } else if s.len() == 1 || s[s.len() - 2] == SPACE {
            init.push(seq![c])
        } else {
            init.update(init.len() - 1, init.last().push(c))
        }
    }
}

/// Number of separators in `w`.
pub open spec fn separators(w: Seq<u8>) -> nat
    decreases w.len(),
{
    if w.len() == 0 {
        0
    } else {
        separators(w.drop_last()) + if w.last() == ARGUMENT_SEPARATOR { 1nat } else { 0nat }
    }
}

/// A word holding more than one separator, or starting or ending with one.
pub open spec fn badly_formatted(w: Seq<u8>) -> bool {
    separators(w) > 1 || (w.len() > 0 && (w[0] == ARGUMENT_SEPARATOR || w.last() == ARGUMENT_SEPARATOR))
}

/// Position of the first separator in `w`, or its length.
pub open spec fn separator_index(w: Seq<u8>, k: int) -> int
    decreases w.len() - k,
{
    if k < 0 || k >= w.len() {
        w.len() as int
    } else if w[k] == ARGUMENT_SEPARATOR {
        k
    } else {
        separator_index(w, k + 1)
    }
}

/// The argument a word stands for: a pair when it holds one separator, a
/// flag otherwise.
pub open spec fn argument_of(w: Seq<u8>) -> (Seq<u8>, Option<Seq<u8>>) {
    let p = separator_index(w, 0);
    if separators(w) == 1 {
        (w.subrange(0, p), Some(w.subrange(p + 1, w.len() as int)))
    } else {
        (w, None)
    }
}

/// No two arguments share a name.
pub open spec fn unique_names(args: Seq<(Seq<u8>, Option<Seq<u8>>)>) -> bool {
    forall|i: int, j: int| 0 <= i < j < args.len() ==> #[trigger] args[i].0 != #[trigger] args[j].0
}

/// What parsing a command line gives: its name and its arguments, or the
/// first error found among, in order: nothing but trailing control and
/// whitespace; bytes that are not allowed; badly formatted words;
/// arguments sharing a name.
pub open spec fn parse_spec(text: Seq<u8>) -> Result<(Seq<u8>, Seq<(Seq<u8>, Option<Seq<u8>>)>), Error> {
    let t = text.subrange(0, trim_len(text) as int);
    let ws = words(t);
    let args = ws.drop_first().map_values(|w: Seq<u8>| argument_of(w));
    if t.len() == 0 {
        Err(Error::CommandEmpty)
    } else if exists|i: int| 0 <= i < t.len() && !is_allowed(#[trigger] t[i]) {
        Err(Error::CharactersNotAllowed)
    } else if exists|i: int| 0 <= i < ws.len() && badly_formatted(#[trigger] ws[i]) {
        Err(Error::MalformedArguments)
    } else if ws.len() == 0 {
        Err(Error::CommandEmpty)
    } else if !unique_names(args) {
        Err(Error::DuplicateArguments)
    } else {
        Ok((ws[0], args))
    }
}

/// Number of bytes of `text` left once trailing control characters and
/// whitespace are dropped.
pub fn trimmed_len(text: &[u8]) -> (r: usize)
    ensures
        r == trim_len(text@),
        r <= text@.len(),
{
    let mut n = text.len();
    proof {
        assert(text@.subrange(0, n as int) =~= text@);
    }
    while n > 0 && (text[n - 1] < 0x20 || text[n - 1] == 0x7F || text[n - 1] == SPACE)
        invariant
            n <= text@.len(),
            trim_len(text@) == trim_len(text@.subrange(0, n as int)),
        decreases n,
    {
        proof {
            assert(text@.subrange(0, n as int).drop_last() =~= text@.subrange(0, n - 1));
        }
        n = n - 1;
    }
    n
}

/// Whether every byte of `t` is allowed.
fn all_allowed(t: &[u8], len: usize) -> (r: bool)
    requires
        len <= t@.len(),
    ensures
        r == forall|i: int| 0 <= i < len ==> is_allowed(#[trigger] t@[i]),
{
    let mut i: usize = 0;
    while i < len
        invariant
            i <= len <= t@.len(),
            forall|k: int| 0 <= k < i ==> is_allowed(#[trigger] t@[k]),
        decreases len - i,
    {
        let c = t[i];
        let ok = (0x30 <= c && c <= 0x39) || (0x41 <= c && c <= 0x5A) || (0x61 <= c && c <= 0x7A)
            || c == SPACE || c == ARGUMENT_SEPARATOR || c == 0x5F;
        if !ok {
            assert(!is_allowed(t@[i as int]));
            return false;
        }
        i = i + 1;
    }
    true
}

/// The views of a list of byte vectors.
pub open spec fn views(v: Seq<Vec<u8>>) -> Seq<Seq<u8>> {
    v.map_values(|x: Vec<u8>| x@)
}

/// Splits the first `len` bytes of `t` into space separated words.
fn split_words(t: &[u8], len: usize) -> (r: Vec<Vec<u8>>)
    requires
        len <= t@.len(),
    ensures
        views(r@) == words(t@.subrange(0, len as int)),
{
    let mut out: Vec<Vec<u8>> = Vec::new();
    let mut cur: Vec<u8> = Vec::new();
    let mut i: usize = 0;
    proof {
        assert(t@.subrange(0, 0) =~= Seq::<u8>::empty());
        assert(views(out@) =~= Seq::<Seq<u8>>::empty());
    }
    while i < len
        invariant
            i <= len <= t@.len(),
            cur@.len() > 0 <==> (i > 0 && t@[i - 1] != SPACE),
            cur@.len() > 0 ==> views(out@).push(cur@) == words(t@.subrange(0, i as int)),
            cur@.len() == 0 ==> views(out@) == words(t@.subrange(0, i as int)),
        decreases len - i,
    {
        let c = t[i];
        let ghost prefix = t@.subrange(0, i + 1);
        proof {
            assert(prefix.drop_last() =~= t@.subrange(0, i as int));
            assert(prefix.last() == c);
        }
        if c == SPACE {
            if cur.len() > 0 {
                let ghost before = views(out@);
                out.push(cur);
                proof {
                    assert(views(out@) =~= before.push(cur@));
                }
                cur = Vec::new();
            }
        } else {
            let ghost before = cur@;
            cur.push(c);
            proof {
                if before.len() == 0 {
                    assert(i == 0 || prefix[prefix.len() - 2] == SPACE);
                    assert(cur@ =~= seq![c]);
                } else {
                    let init = words(prefix.drop_last());
                    assert(init == views(out@).push(before));
                    assert(views(out@).push(cur@) =~= init.update(init.len() - 1, init.last().push(c)));
                }
            }
        }
        i = i + 1;
    }
    if cur.len() > 0 {
        let ghost before = views(out@);
        out.push(cur);
        proof {
            assert(views(out@) =~= before.push(cur@));
        }
    }
    out
}

/// Number of separators in `w`.
fn count_separators(w: &Vec<u8>) -> (r: usize)
    ensures
        r == separators(w@),
{
    let mut n: usize = 0;
    let mut i: usize = 0;
    while i < w.len()
        invariant
            i <= w@.len(),
            n <= i,
            n == separators(w@.subrange(0, i as int)),
        decreases w@.len() - i,
    {
        proof {
            assert(w@.subrange(0, i + 1).drop_last() =~= w@.subrange(0, i as int));
        }
        if w[i] == ARGUMENT_SEPARATOR {
            n = n + 1;
        }
        i = i + 1;
    }
    assert(w@.subrange(0, w@.len() as int) =~= w@);
    n
}

/// Whether the word holds more than one separator, or starts or ends with one.
fn is_badly_formatted(w: &Vec<u8>) -> (r: bool)
    ensures
        r == badly_formatted(w@),
{
    count_separators(w) > 1 || (w.len() > 0 && (w[0] == ARGUMENT_SEPARATOR || w[w.len() - 1]
        == ARGUMENT_SEPARATOR))
}

/// `w[from..to]`.
fn slice_of(w: &Vec<u8>, from: usize, to: usize) -> (r: Vec<u8>)
    requires
        from <= to <= w@.len(),
    ensures
        r@ == w@.subrange(from as int, to as int),
{
    let mut out: Vec<u8> = Vec::new();
    let mut i = from;
    while i < to
        invariant
            from <= i <= to <= w@.len(),
            out@ == w@.subrange(from as int, i as int),
        decreases to - i,
    {
        out.push(w[i]);
        i = i + 1;
        assert(out@ =~= w@.subrange(from as int, i as int));
    }
    out
}

/// The argument a word stands for.
fn to_argument(w: &Vec<u8>) -> (r: Argument)
    ensures
        argument_view(r) == argument_of(w@),
{
    if count_separators(w) != 1 {
        return Argument::Single(slice_of(w, 0, w.len()));
    }
    let mut p: usize = 0;
    while p < w.len() && w[p] != ARGUMENT_SEPARATOR
        invariant
            p <= w@.len(),
            separator_index(w@, 0) == separator_index(w@, p as int),
            forall|k: int| 0 <= k < p ==> w@[k] != ARGUMENT_SEPARATOR,
        decreases w@.len() - p,
    {
        p = p + 1;
    }
    if p == w.len() {
        proof {
            lemma_no_separators(w@);
        }
        return Argument::Pair(slice_of(w, 0, p), Vec::new());
    }
    Argument::Pair(slice_of(w, 0, p), slice_of(w, p + 1, w.len()))
}

/// A word without separator bytes holds no separators.
proof fn lemma_no_separators(w: Seq<u8>)
    requires
        forall|k: int| 0 <= k < w.len() ==> w[k] != ARGUMENT_SEPARATOR,
    ensures
        separators(w) == 0,
    decreases w.len(),
{
    if w.len() > 0 {
        assert forall|k: int| 0 <= k < w.drop_last().len() implies w.drop_last()[k] != ARGUMENT_SEPARATOR by {
            assert(w.drop_last()[k] == w[k]);
        }
        lemma_no_separators(w.drop_last());
    }
}

/// Whether two byte strings are equal.
fn same_bytes(a: &Vec<u8>, b: &[u8]) -> (r: bool)
    ensures
        r == (a@ == b@),
{
    if a.len() != b.len() {
        return false;
    }
    let mut i: usize = 0;
    while i < a.len()
        invariant
            i <= a@.len(),
            a@.len() == b@.len(),
            forall|k: int| 0 <= k < i ==> a@[k] == b@[k],
        decreases a@.len() - i,
    {
        if a[i] != b[i] {
            return false;
        }
        i = i + 1;
    }
    assert(a@ =~= b@);
    true
}

/// Whether no two arguments share a name.
fn names_unique(args: &Vec<Argument>) -> (r: bool)
    ensures
        r == unique_names(args@.map_values(|a: Argument| argument_view(a))),
{
    let ghost v = args@.map_values(|a: Argument| argument_view(a));
    let mut j: usize = 0;
    while j < args.len()
        invariant
            j <= args@.len(),
            v == args@.map_values(|a: Argument| argument_view(a)),
            forall|x: int, y: int| 0 <= x < y < j ==> #[trigger] v[x].0 != #[trigger] v[y].0,
        decreases args@.len() - j,
    {
        let mut i: usize = 0;
        while i < j
            invariant
                i <= j < args@.len(),
                v == args@.map_values(|a: Argument| argument_view(a)),
                forall|x: int, y: int| 0 <= x < y < j ==> #[trigger] v[x].0 != #[trigger] v[y].0,
                forall|x: int| 0 <= x < i ==> #[trigger] v[x].0 != v[j as int].0,
            decreases j - i,
        {
            if same_bytes(args[i].name(), args[j].name().as_slice()) {
                assert(v[i as int].0 == v[j as int].0);
                return false;
            }
            i = i + 1;
        }
        j = j + 1;
    }
    true
}

/// Parses a command line into the command's name and its arguments.
pub fn parse(text: &[u8]) -> (r: Result<(Vec<u8>, Vec<Argument>), Error>)
    ensures
        match (r, parse_spec(text@)) {
            (Ok((n, a)), Ok((sn, sa))) => n@ == sn && a@.map_values(|x: Argument| argument_view(x)) == sa,
            (Err(e), Err(se)) => e == se,
            _ => false,
        },
{
    let len = trimmed_len(text);
    let ghost t = text@.subrange(0, len as int);
    if len == 0 {
        return Err(Error::CommandEmpty);
    }
    if !all_allowed(text, len) {
        proof {
            let i = choose|i: int| 0 <= i < len && !is_allowed(#[trigger] text@[i]);
            assert(!is_allowed(t[i]));
        }
        return Err(Error::CharactersNotAllowed);
    }
    proof {
        assert forall|i: int| 0 <= i < t.len() implies is_allowed(#[trigger] t[i]) by {
            assert(t[i] == text@[i]);
        }
    }
    let tokens = split_words(text, len);
    let mut k: usize = 0;
    while k < tokens.len()
        invariant
            k <= tokens@.len(),
            views(tokens@) == words(t),
            forall|i: int| 0 <= i < k ==> !badly_formatted(#[trigger] words(t)[i]),
            forall|i: int| 0 <= i < t.len() ==> is_allowed(#[trigger] t[i]),
            t == text@.subrange(0, len as int),
            len == trim_len(text@),
        decreases tokens@.len() - k,
    {
        if is_badly_formatted(&tokens[k]) {
            assert(views(tokens@)[k as int] == tokens@[k as int]@);
            assert(badly_formatted(words(t)[k as int]));
            return Err(Error::MalformedArguments);
        }
        k = k + 1;
    }
    if tokens.len() == 0 {
        return Err(Error::CommandEmpty);
    }
    let mut arguments: Vec<Argument> = Vec::new();
    let mut j: usize = 1;
    while j < tokens.len()
        invariant
            1 <= j <= tokens@.len(),
            views(tokens@) == words(t),
            arguments@.len() == j - 1,
            forall|x: int| 0 <= x < j - 1 ==> argument_view(#[trigger] arguments@[x]) == argument_of(words(t)[x + 1]),
        decreases tokens@.len() - j,
    {
        let a = to_argument(&tokens[j]);
        assert(tokens@[j as int]@ == words(t)[j as int]);
        arguments.push(a);
        j = j + 1;
    }
    let ghost args_spec = words(t).drop_first().map_values(|w: Seq<u8>| argument_of(w));
    assert(arguments@.map_values(|x: Argument| argument_view(x)) =~= args_spec);
    if !names_unique(&arguments) {
        return Err(Error::DuplicateArguments);
    }
    let name = slice_of(&tokens[0], 0, tokens[0].len());
    assert(name@ =~= words(t)[0]);
    Ok((name, arguments))
}

/// The arguments hold a flag with this name.
pub open spec fn has_single(args: Seq<Argument>, name: Seq<u8>) -> bool {
    exists|i: int| 0 <= i < args.len() && #[trigger] argument_view(args[i]) == (name, None::<Seq<u8>>)
}

/// Position of the first pair with this name, or the number of arguments.
pub open spec fn pair_index(args: Seq<Argument>, name: Seq<u8>, k: int) -> int
    decreases args.len() - k,
{
    if k < 0 || k >= args.len() {
        args.len() as int
    } else if argument_view(args[k]).0 == name && argument_view(args[k]).1 is Some {
        k
    } else {
        pair_index(args, name, k + 1)
    }
}

/// Looks up a pair argument: its value, if present.
pub fn find_pair(args: &Vec<Argument>, name: &[u8]) -> (r: Option<Vec<u8>>)
    ensures
        ({
            let k = pair_index(args@, name@, 0);
            &&& k == args@.len() ==> r is None
            &&& k < args@.len() ==> (r matches Some(v) && Some(v@) == argument_view(args@[k]).1)
        }),
{
    let mut i: usize = 0;
    while i < args.len()
        invariant
            i <= args@.len(),
            pair_index(args@, name@, 0) == pair_index(args@, name@, i as int),
        decreases args@.len() - i,
    {
        match &args[i] {
            Argument::Pair(n, v) => {
                if same_bytes(n, name) {
                    return Some(slice_of(v, 0, v.len()));
                }
            },
            Argument::Single(_) => {},
        }
        i = i + 1;
    }
    None
}

/// Whether a flag with this name is present.
pub fn has_flag_named(args: &Vec<Argument>, name: &[u8]) -> (r: bool)
    ensures
        r == has_single(args@, name@),
{
    let mut i: usize = 0;
    while i < args.len()
        invariant
            i <= args@.len(),
            forall|k: int| 0 <= k < i ==> #[trigger] argument_view(args@[k]) != (name@, None::<Seq<u8>>),
        decreases args@.len() - i,
    {
        match &args[i] {
            Argument::Single(n) => {
                if same_bytes(n, name) {
                    assert(argument_view(args@[i as int]) == (name@, None::<Seq<u8>>));
                    return true;
                }
            },
            Argument::Pair(_, _) => {},
        }
        i = i + 1;
    }
    false
}

/// Retrieves the value of a required pair argument. A flag of that name is
/// malformed; no pair of that name is a missing argument.
pub fn retrieve(args: &Vec<Argument>, name: &[u8]) -> (r: Result<Vec<u8>, Error>)
    ensures
        has_single(args@, name@) ==> r == Err::<Vec<u8>, Error>(Error::MalformedArguments),
        !has_single(args@, name@) && pair_index(args@, name@, 0) == args@.len() ==> r == Err::<Vec<u8>, Error>(Error::MissingArgument),
        !has_single(args@, name@) && pair_index(args@, name@, 0) < args@.len() ==> (r matches Ok(v)
            && Some(v@) == argument_view(args@[pair_index(args@, name@, 0)]).1),
{
    if has_flag_named(args, name) {
        return Err(Error::MalformedArguments);
    }
    match find_pair(args, name) {
        Some(v) => Ok(v),
        None => Err(Error::MissingArgument),
    }
}

/// Retrieves the value of an optional pair argument. A flag of that name
/// is malformed.
pub fn retrieve_optional(args: &Vec<Argument>, name: &[u8]) -> (r: Result<Option<Vec<u8>>, Error>)
    ensures
        has_single(args@, name@) ==> r == Err::<Option<Vec<u8>>, Error>(Error::MalformedArguments),
        !has_single(args@, name@) && pair_index(args@, name@, 0) == args@.len() ==> r matches Ok(None),
        !has_single(args@, name@) && pair_index(args@, name@, 0) < args@.len() ==> (r matches Ok(Some(v))
            && Some(v@) == argument_view(args@[pair_index(args@, name@, 0)]).1),
{
    if has_flag_named(args, name) {
        return Err(Error::MalformedArguments);
    }
    Ok(find_pair(args, name))
}

/// Whether any argument, flag or pair, has this name.
pub fn retrieve_flag(args: &Vec<Argument>, name: &[u8]) -> (r: bool)
    ensures
        r == exists|i: int| 0 <= i < args@.len() && #[trigger] argument_view(args@[i]).0 == name@,
{
    let mut i: usize = 0;
    while i < args.len()
        invariant
            i <= args@.len(),
            forall|k: int| 0 <= k < i ==> #[trigger] argument_view(args@[k]).0 != name@,
        decreases args@.len() - i,
    {
        if same_bytes(args[i].name(), name) {
            return true;
        }
        i = i + 1;
    }
    false
}

/// `name` is among `known`.
pub open spec fn is_known(known: Seq<Vec<u8>>, name: Seq<u8>) -> bool {
    exists|j: int| 0 <= j < known.len() && #[trigger] known[j]@ == name
}

/// Whether some argument's name is not among `allowed`.
pub fn has_unexpected_argument(args: &Vec<Argument>, allowed: &Vec<Vec<u8>>) -> (r: bool)
    ensures
        r == exists|i: int| 0 <= i < args@.len() && !#[trigger] is_known(allowed@, argument_view(args@[i]).0),
{
    let mut i: usize = 0;
    while i < args.len()
        invariant
            i <= args@.len(),
            forall|x: int| 0 <= x < i ==> #[trigger] is_known(allowed@, argument_view(args@[x]).0),
        decreases args@.len() - i,
    {
        let mut found = false;
        let mut j: usize = 0;
        while j < allowed.len()
            invariant
                i < args@.len(),
                j <= allowed@.len(),
                found ==> is_known(allowed@, argument_view(args@[i as int]).0),
                !found ==> forall|y: int| 0 <= y < j ==> #[trigger] allowed@[y]@ != argument_view(args@[i as int]).0,
            decreases allowed@.len() - j,
        {
            if same_bytes(&allowed[j], args[i].name().as_slice()) {
                found = true;
            }
            j = j + 1;
        }
        if !found {
            assert(!is_known(allowed@, argument_view(args@[i as int]).0));
            return true;
        }
        i = i + 1;
    }
    false
}

/// The value of a string of decimal digits.
pub open spec fn decimal_value(s: Seq<u8>) -> nat
    decreases s.len(),
{
    if s.len() == 0 {
        0
    } else {
        decimal_value(s.drop_last()) * 10 + (s.last() - 0x30) as nat
    }
}

/// Every byte is a decimal digit.
pub open spec fn all_digits(s: Seq<u8>) -> bool {
    forall|i: int| 0 <= i < s.len() ==> 0x30 <= #[trigger] s[i] <= 0x39
}

/// The digits of a number as Rust's integer parsing reads them: an
/// optional leading `+`, then at least one digit.
pub open spec fn number_digits(s: Seq<u8>) -> Seq<u8> {
    if s.len() > 0 && s[0] == 0x2B {
        s.drop_first()
    } else {
        s
    }
}

/// Parses an unsigned decimal number no greater than `max`, as the
/// arguments of commands are parsed; anything else is a malformed argument.
pub fn parse_number(text: &[u8], max: u64) -> (r: Result<u64, Error>)
    ensures
        ({
            let d = number_digits(text@);
            &&& (d.len() > 0 && all_digits(d) && decimal_value(d) <= max) ==> r == Ok::<u64, Error>(decimal_value(d) as u64)
            &&& !(d.len() > 0 && all_digits(d) && decimal_value(d) <= max) ==> r == Err::<u64, Error>(Error::MalformedArguments)
        }),
{
    let start: usize = if text.len() > 0 && text[0] == 0x2B { 1 } else { 0 };
    let ghost d = number_digits(text@);
    proof {
        assert(d =~= text@.subrange(start as int, text@.len() as int));
    }
    if start == text.len() {
        return Err(Error::MalformedArguments);
    }
    let mut value: u64 = 0;
    let mut i = start;
    while i < text.len()
        invariant
            start <= i <= text@.len(),
            d == number_digits(text@),
            d == text@.subrange(start as int, text@.len() as int),
            all_digits(text@.subrange(start as int, i as int)),
            value == decimal_value(text@.subrange(start as int, i as int)),
            value <= max,
        decreases text@.len() - i,
    {
        let c = text[i];
        proof {
            assert(text@.subrange(start as int, i + 1).drop_last() =~= text@.subrange(start as int, i as int));
        }
        if c < 0x30 || c > 0x39 {
            assert(!all_digits(d)) by {
                assert(d[i - start] == c);
            }
            return Err(Error::MalformedArguments);
        }
        let digit = (c - 0x30) as u64;
        if digit > max || value > (max - digit) / 10 {
            proof {
                if digit <= max {
                    assert(value * 10 + digit > max) by (nonlinear_arith)
                        requires
                            value > (max - digit) / 10,
                            digit <= max,
                    ;
                }
                if all_digits(d) {
                    lemma_decimal_prefix_bound(d, (i + 1 - start) as int);
                    assert(d.subrange(0, (i + 1 - start) as int) =~= text@.subrange(start as int, i + 1));
                }
            }
            return Err(Error::MalformedArguments);
        }
        proof {
            assert(value * 10 + digit <= max) by (nonlinear_arith)
                requires
                    value <= (max - digit) / 10,
                    digit <= 9,
            ;
        }
        value = value * 10 + digit;
        i = i + 1;
        proof {
            assert forall|k: int| 0 <= k < i - start implies 0x30 <= #[trigger] text@.subrange(start as int, i as int)[k] <= 0x39 by {
                if k < i - 1 - start {
                    assert(text@.subrange(start as int, i as int)[k] == text@.subrange(start as int, i - 1)[k]);
                }
            }
        }
    }
    assert(text@.subrange(start as int, i as int) =~= d);
    Ok(value)
}

/// A number is at least as large as the number its first digits spell.
proof fn lemma_decimal_prefix_bound(s: Seq<u8>, n: int)
    requires
        0 <= n <= s.len(),
        all_digits(s),
    ensures
        decimal_value(s) >= decimal_value(s.subrange(0, n)),
    decreases s.len(),
{
    if n < s.len() {
        assert(s.drop_last() =~= s.subrange(0, s.len() - 1));
        assert(all_digits(s.drop_last()));
        lemma_decimal_prefix_bound(s.drop_last(), n);
        assert(s.drop_last().subrange(0, n) =~= s.subrange(0, n));
    } else {
        assert(s.subrange(0, n) =~= s);
    }
}

/// A command the console knows: its name, and the names of the arguments
/// it takes.
pub struct CommandShape {
    pub name: Vec<u8>,
    pub arguments: Vec<Vec<u8>>,
}

/// `std::str::from_utf8`, reduced to whether it accepts the bytes: it does
/// exactly when they are well-formed UTF-8 (no overlong encodings, no
/// surrogates), as vstd's `valid_utf8` states it.
#[verifier::external_body]
fn is_utf8(bytes: &[u8]) -> (r: bool)
    ensures
        r == vstd::utf8::valid_utf8(bytes@),
{
    std::str::from_utf8(bytes).is_ok()
}

/// Index of the first command from `k` on that is named `name`, or the
/// number of commands when there is none.
pub open spec fn first_command_from(commands: Seq<CommandShape>, name: Seq<u8>, k: int) -> int
    decreases commands.len() - k,
{
    if k >= commands.len() {
        commands.len() as int
    } else if commands[k].name@ == name {
        k
    } else {
        first_command_from(commands, name, k + 1)
    }
}

/// Some argument's name is not among `allowed`.
pub open spec fn unexpected_in(allowed: Seq<Vec<u8>>, args: Seq<(Seq<u8>, Option<Seq<u8>>)>) -> bool {
    exists|i: int| 0 <= i < args.len() && !is_known(allowed, #[trigger] args[i].0)
}

/// What the console makes of a line it read, before running anything: a
/// line that filled the buffer is too long, one that is not UTF-8 is badly
/// encoded; otherwise the line is parsed, and must name one of `commands`
/// (the first of that name) with only arguments that command takes.
pub open spec fn console_step_spec(line: Seq<u8>, overflowed: bool, commands: Seq<CommandShape>) -> Result<(int, Seq<(Seq<u8>, Option<Seq<u8>>)>), Error> {
    if overflowed {
        Err(Error::SerialBufferOverflow)
    } else if !vstd::utf8::valid_utf8(line) {
        Err(Error::BadCommandEncoding)
    } else {
        match parse_spec(line) {
            Err(e) => Err(e),
            Ok((name, args)) => {
                let k = first_command_from(commands, name, 0);
                if k == commands.len() {
                    Err(Error::CommandUnknown)
                } else if unexpected_in(commands[k].arguments@, args) {
                    Err(Error::UnexpectedArguments)
                } else {
                    Ok((k, args))
                }
            },
        }
    }
}

/// Reads a command line the console received (`overflowed` when it filled
/// the buffer) and finds the command it calls among `commands`, with its
/// arguments.
pub fn console_step(line: &[u8], overflowed: bool, commands: &Vec<CommandShape>) -> (r: Result<(usize, Vec<Argument>), Error>)
    ensures
        match (r, console_step_spec(line@, overflowed, commands@)) {
            (Ok((k, a)), Ok((sk, sa))) => k == sk && a@.map_values(|x: Argument| argument_view(x)) == sa,
            (Err(e), Err(se)) => e == se,
            _ => false,
        },
{
    if overflowed {
        return Err(Error::SerialBufferOverflow);
    }
    if !is_utf8(line) {
        return Err(Error::BadCommandEncoding);
    }
    let (name, arguments) = match parse(line) {
        Ok(parsed) => parsed,
        Err(e) => return Err(e),
    };
    let ghost args = arguments@.map_values(|x: Argument| argument_view(x));
    let mut k: usize = 0;
    while k < commands.len()
        invariant
            k <= commands@.len(),
            first_command_from(commands@, name@, 0) == first_command_from(commands@, name@, k as int),
        ensures
            k <= commands@.len(),
            first_command_from(commands@, name@, 0) == first_command_from(commands@, name@, k as int),
            k < commands@.len() ==> commands@[k as int].name@ == name@,
        decreases commands@.len() - k,
    {
        if same_bytes(&commands[k].name, name.as_slice()) {
            break;
        }
        k = k + 1;
    }
    if k == commands.len() {
        return Err(Error::CommandUnknown);
    }
    assert(first_command_from(commands@, name@, k as int) == k);
    if has_unexpected_argument(&arguments, &commands[k].arguments) {
        proof {
            let i = choose|i: int| 0 <= i < arguments@.len() && !#[trigger] is_known(commands@[k as int].arguments@, argument_view(arguments@[i]).0);
            assert(!is_known(commands@[k as int].arguments@, args[i].0));
        }
        return Err(Error::UnexpectedArguments);
    }
    proof {
        assert forall|i: int| 0 <= i < args.len() implies is_known(commands@[k as int].arguments@, #[trigger] args[i].0) by {
            assert(args[i] == argument_view(arguments@[i]));
        }
    }
    Ok((k, arguments))
}

/// What the console has shown so far: whether the greeting was printed,
/// and whether a prompt is owed before the next command line.
pub struct ConsoleState {
    greeted: bool,
    needs_prompt: bool,
}

/// A console's state, as a pair (greeted already, prompt owed), after one
/// whole call: `before_command`, reading and running the command line, then
/// `after_command`.
pub open spec fn console_transition(v: (bool, bool)) -> (bool, bool) {
    (true, true)
}

/// What a console in state `v` prints before reading a command line:
/// whether the greeting, and whether the prompt.
pub open spec fn console_preamble(v: (bool, bool)) -> (bool, bool) {
    (!v.0, v.1)
}

/// A new console's state after `k` whole calls.
pub open spec fn console_after_calls(k: nat) -> (bool, bool)
    decreases k,
{
    if k == 0 {
        (false, true)
    } else {
        console_transition(console_after_calls((k - 1) as nat))
    }
}

/// Over any run of calls on a new console, the greeting is printed exactly
/// once, in the first call, before its prompt, and every call prints the
/// prompt once. (A line naming no command comes out of `console_step` as
/// `CommandUnknown`, whose message each such call prints once.)
pub proof fn lemma_greeting_once(k: nat)
    ensures
        console_preamble(console_after_calls(k)) == (k == 0, true),
    decreases k,
{
    if k > 0 {
        lemma_greeting_once((k - 1) as nat);
    }
}

/// What to print before reading a command line.
#[derive(Copy, Clone, Debug, PartialEq, Eq)]
pub struct Preamble {
    /// Print the greeting (and the hint on how to get help).
    pub greeting: bool,
    /// Print the prompt.
    pub prompt: bool,
}

impl ConsoleState {
    pub closed spec fn spec_greeted(&self) -> bool {
        self.greeted
    }

    pub closed spec fn spec_needs_prompt(&self) -> bool {
        self.needs_prompt
    }

    /// The state as a pair: greeted already, prompt owed.
    pub open spec fn spec_state(&self) -> (bool, bool) {
        (self.spec_greeted(), self.spec_needs_prompt())
    }

    /// A console that has printed nothing yet.
    pub fn new() -> (r: Self)
        ensures
            !r.spec_greeted(),
            r.spec_needs_prompt(),
            r.spec_state() == console_after_calls(0),
    {
        ConsoleState { greeted: false, needs_prompt: true }
    }

    /// Before a command line is read: the greeting is printed the first
    /// time only, and the prompt when one is owed. Once greeted, a console
    /// stays greeted, so the greeting is printed once in all.
    pub fn before_command(&mut self) -> (r: Preamble)
        ensures
            r.greeting == !old(self).spec_greeted(),
            r.prompt == old(self).spec_needs_prompt(),
            (r.greeting, r.prompt) == console_preamble(old(self).spec_state()),
            final(self).spec_greeted(),
            !final(self).spec_needs_prompt(),
    {
        let r = Preamble { greeting: !self.greeted, prompt: self.needs_prompt };
        self.greeted = true;
        self.needs_prompt = false;
        r
    }

    /// After a command ran (or failed): a prompt is owed again.
    pub fn after_command(&mut self)
        ensures
            final(self).spec_greeted() == old(self).spec_greeted(),
            final(self).spec_needs_prompt(),
            old(self).spec_greeted() ==> final(self).spec_state() == console_transition(old(self).spec_state()),
    {
        self.needs_prompt = true;
    }
}

} // verus!
