use crate::git;
use vstd::prelude::*;
use vstd::string::*;

verus! {

/// Prefix shared by every local branch reference.
pub const BRANCH_REF_PREFIX: &'static str = "refs/heads/";

/// What is left of `s` once every leading repetition of `prefix` is gone.
pub open spec fn strip_repeated_prefix(s: Seq<char>, prefix: Seq<char>) -> Seq<char>
    decreases s.len(),
{
    if prefix.len() > 0 && prefix.is_prefix_of(s) {
        strip_repeated_prefix(s.skip(prefix.len() as int), prefix)
    } else {
        s
    }
}

/// The short name of a branch reference: the reference name without any
/// leading `refs/heads/`.
pub open spec fn branch_shorthand(ref_name: Seq<char>) -> Seq<char> {
    strip_repeated_prefix(ref_name, BRANCH_REF_PREFIX@)
}

/// The characters of a string slice, in order.
pub fn chars_of(s: &str) -> (chars: Vec<char>)
    ensures
        chars@ == s@,
{
    broadcast use vstd::string::group_string_axioms;

    let mut chars: Vec<char> = Vec::new();
    for c in it: s.chars()
        invariant
            it.seq() == s@,
            chars@ == s@.take(it.index() as int),
    {
        chars.push(c);
        assert(chars@ =~= s@.take(it.index() + 1));
    }
    assert(s@.take(s@.len() as int) =~= s@);
    chars
}

/// Whether `needle` occurs in `hay` starting at position `at`.
pub fn occurs_at(hay: &Vec<char>, at: usize, needle: &Vec<char>) -> (found: bool)
    ensures
        found == (at <= hay@.len() && needle@.is_prefix_of(hay@.skip(at as int))),
{
    if at > hay.len() || needle.len() > hay.len() - at {
        return false;
    }
    let mut i: usize = 0;
    while i < needle.len()
        invariant
            at <= hay.len(),
            needle.len() <= hay.len() - at,
            i <= needle.len(),
            forall|j: int| 0 <= j < i ==> needle@[j] == hay@[at + j],
        decreases needle.len() - i,
    {
        if needle[i] != hay[at + i] {
            assert(hay@.skip(at as int)[i as int] == hay@[at + i]);
            return false;
        }
        i += 1;
    }
    assert(needle@ =~= hay@.skip(at as int).subrange(0, needle@.len() as int));
    true
}

/// Strips every leading `refs/heads/` from a reference name.
pub fn branch_ref_shorthand(ref_name: &str) -> (short: &str)
    ensures
        short@ == branch_shorthand(ref_name@),
{
    let hay = chars_of(ref_name);
    let prefix = chars_of(BRANCH_REF_PREFIX);
    proof {
        reveal_strlit("refs/heads/");
    }
    let mut start: usize = 0;
    assert(hay@.skip(0) =~= ref_name@);
    while occurs_at(&hay, start, &prefix)
        invariant
            hay@ == ref_name@,
            prefix@ == BRANCH_REF_PREFIX@,
            prefix@.len() == 11,
            start <= hay.len(),
            branch_shorthand(ref_name@) == strip_repeated_prefix(
                hay@.skip(start as int),
                prefix@,
            ),
        decreases hay.len() - start,
    {
        assert(hay@.skip(start as int).skip(prefix@.len() as int) =~= hay@.skip(
            start + prefix@.len(),
        ));
        start += prefix.len();
    }
    assert(hay@.skip(start as int) =~= ref_name@.subrange(start as int, ref_name@.len() as int));
    ref_name.substring_char(start, hay.len())
}

/// The first value that is there, or the default where none is.
pub open spec fn first_present<T>(found: Seq<Option<T>>, default_value: T) -> T
    decreases found.len(),
{
    if found.len() == 0 {
        default_value
    } else if found[0] is Some {
        found[0]->0
    } else {
        first_present(found.drop_first(), default_value)
    }
}

/// One more lookup at the end only matters where all before it found nothing.
pub proof fn lemma_first_present_push<T>(found: Seq<Option<T>>, last: Option<T>, default_value: T)
    ensures
        first_present(found.push(last), default_value) == first_present(
            found,
            match last {
                Some(value) => value,
                None => default_value,
            },
        ),
    decreases found.len(),
{
    let all = found.push(last);
    if found.len() == 0 {
        assert(all.drop_first() =~= found);
    } else {
        assert(all[0] == found[0]);
        assert(all.drop_first() =~= found.drop_first().push(last));
        lemma_first_present_push(found.drop_first(), last, default_value);
    }
}

/// A single lookup decides alone.
pub proof fn lemma_first_present_single<T>(only: Option<T>, default_value: T)
    ensures
        first_present(seq![only], default_value) == match only {
            Some(value) => value,
            None => default_value,
        },
{
    assert(seq![only] =~= Seq::<Option<T>>::empty().push(only));
    lemma_first_present_push(Seq::<Option<T>>::empty(), only, default_value);
}

/// The texts of a list of optional strings.
pub open spec fn option_texts(found: Seq<Option<String>>) -> Seq<Option<Seq<char>>> {
    Seq::new(
        found.len(),
        |i: int|
            match found[i] {
                Some(text) => Some(text@),
                None => None,
            },
    )
}

/// The text of the first string that is there is the first text that is
/// there.
pub proof fn lemma_first_present_text(found: Seq<Option<String>>, default_value: String)
    ensures
        first_present(found, default_value)@ == first_present(
            option_texts(found),
            default_value@,
        ),
    decreases found.len(),
{
    if found.len() > 0 {
        assert(option_texts(found).drop_first() =~= option_texts(found.drop_first()));
        lemma_first_present_text(found.drop_first(), default_value);
    }
}

/// Picks the first value that is there, or the default where none is.
pub fn pick_first<T>(found: Vec<Option<T>>, default_value: T) -> (value: T)
    ensures
        value == first_present(found@, default_value),
{
    let mut found = found;
    let mut value = default_value;
    let ghost all = found@;
    while found.len() > 0
        invariant
            first_present(all, default_value) == first_present(found@, value),
        decreases found.len(),
    {
        let ghost before = found@;
        let last = found.pop().unwrap();
        proof {
            assert(before =~= found@.push(last));
            lemma_first_present_push(found@, last, value);
        }
        match last {
            Some(present) => {
                value = present;
            },
            None => {},
        }
    }
    value
}

/// A kind of value that can be read from one key of a git configuration.
pub trait ConfigLookup: Sized {
    /// Reads the value stored under `key`, if there is one of this kind.
    fn lookup(config: &git2::Config, key: &str) -> (found: Option<Self>);
}

/// A kind of value that a git configuration can hold under one of several
/// keys.
pub trait ConfigValue: Sized {
    /// The value under the first of `keys` that holds one, or
    /// `default_value` where none does. The keys are read in order, and no
    /// further than the first that holds a value.
    fn from_config(config: &git2::Config, keys: &[&str], default_value: Self) -> (value: Self)
        ensures
            exists|found: Seq<Option<Self>>|
                found.len() <= keys@.len() && value == #[trigger] first_present(
                    found,
                    default_value,
                ),
    ;
}

/// Looks the keys up in order, stops at the first that holds a value, and
/// picks that value.
fn get_value<T: ConfigLookup>(config: &git2::Config, keys: &[&str], default_value: T) -> (value: T)
    ensures
        exists|found: Seq<Option<T>>|
            found.len() <= keys@.len() && value == #[trigger] first_present(found, default_value),
{
    let mut found: Vec<Option<T>> = Vec::new();
    let mut i: usize = 0;
    let mut hit = false;
    while i < keys.len() && !hit
        invariant
            i <= keys@.len(),
            found@.len() == i,
        decreases keys@.len() - i,
    {
        let value = T::lookup(config, keys[i]);
        hit = value.is_some();
        found.push(value);
        i += 1;
    }
    pick_first(found, default_value)
}

impl ConfigLookup for String {
    fn lookup(config: &git2::Config, key: &str) -> (found: Option<Self>) {
        git::config_string(config, key).ok()
    }
}

impl ConfigLookup for bool {
    fn lookup(config: &git2::Config, key: &str) -> (found: Option<Self>) {
        git::config_bool(config, key).ok()
    }
}

impl ConfigValue for String {
    fn from_config(config: &git2::Config, keys: &[&str], default_value: Self) -> (value: Self) {
        get_value(config, keys, default_value)
    }
}

impl ConfigValue for bool {
    fn from_config(config: &git2::Config, keys: &[&str], default_value: Self) -> (value: Self) {
        get_value(config, keys, default_value)
    }
}

/// The names and values of a substitution context, as plain text.
pub open spec fn context_pairs(context: Seq<(&str, &str)>) -> Seq<(Seq<char>, Seq<char>)> {
    Seq::new(context.len(), |i: int| (context[i].0@, context[i].1@))
}

/// The value that a context gives to `name`: that of the first entry of
/// that name.
pub open spec fn context_value(context: Seq<(Seq<char>, Seq<char>)>, name: Seq<char>) -> Option<
    Seq<char>,
>
    decreases context.len(),
{
    if context.len() == 0 {
        None
    } else if context[0].0 == name {
        Some(context[0].1)
    } else {
        context_value(context.drop_first(), name)
    }
}

/// Whether two string slices hold the same text.
pub fn same_text(a: &str, b: &str) -> (same: bool)
    ensures
        same == (a@ == b@),
{
    let left = a.to_owned();
    let right = b.to_owned();
    left == right
}

/// Looks `name` up in a substitution context.
pub fn lookup_context(context: &[(&str, &str)], name: &str) -> (value: Option<String>)
    ensures
        match value {
            Some(text) => context_value(context_pairs(context@), name@) == Some(text@),
            None => context_value(context_pairs(context@), name@) is None,
        },
{
    let ghost pairs = context_pairs(context@);
    let mut i: usize = 0;
    assert(pairs.skip(0) =~= pairs);
    while i < context.len()
        invariant
            i <= context@.len(),
            pairs == context_pairs(context@),
            context_value(pairs, name@) == context_value(pairs.skip(i as int), name@),
        decreases context@.len() - i,
    {
        let entry = &context[i];
        proof {
            let rest = pairs.skip(i as int);
            assert(rest[0] == (entry.0@, entry.1@));
            assert(rest.drop_first() =~= pairs.skip(i + 1));
        }
        if same_text(entry.0, name) {
            return Some(entry.1.to_owned());
        }
        i += 1;
    }
    assert(pairs.skip(i as int).len() == 0);
    None
}

/// The text that `shellexpand::env_with_context_no_errors` makes of `input`
/// when each variable is looked up in `context`.
pub uninterp spec fn expanded(input: Seq<char>, context: Seq<(Seq<char>, Seq<char>)>) -> Seq<char>;

/// `shellexpand::env_with_context_no_errors`: replaces each `$NAME`,
/// `${NAME}` and `${NAME:-default}` of `input` by what `lookup_context`
/// finds for the name in `context`. The contract names the outcome and
/// claims of it only that a text without a `$` comes back as it is.
#[verifier::external_body]
fn expand_variables(input: &str, context: &[(&str, &str)]) -> (output: String)
    ensures
        output@ == expanded(input@, context_pairs(context@)),
        !input@.contains('$') ==> output@ == input@,
{
    shellexpand::env_with_context_no_errors(input, |name| lookup_context(context, name)).to_string()
}

/// Substitutes the variables of `input` from `context`. A variable that the
/// context does not name stays as it is written.
pub fn expand(input: &str, context: &[(&str, &str)]) -> (output: String)
    ensures
        output@ == expanded(input@, context_pairs(context@)),
        !input@.contains('$') ==> output@ == input@,
{
    expand_variables(input, context)
}

} // verus!
