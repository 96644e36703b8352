use vstd::prelude::*;
use crate::error::ProgramError;
use crate::flags::{flag_named, flag_named_in, flag_registry, help_text, render_help, valid_flags, Flag};
use crate::target::{downloadable_of, url_parse_of, Downloadable};
use crate::text::{is_flag_text, normalize_arg, normalized, starts_with_dash};

verus! {

/// What one normalized argument stands for.
pub enum Arg {
    Switch(Flag),
    Target(Seq<char>),
}

/// The message of the error for a dash-led text that names no flag.
pub open spec fn invalid_flag_message(s: Seq<char>) -> Seq<char> {
    s + " is not a valid flag"@
}

/// How a normalized argument is read: a flag when it starts with a dash,
/// otherwise a URL.
pub open spec fn arg_of(s: Seq<char>) -> Result<Arg, Seq<char>> {
    if is_flag_text(s) {
        match flag_named(s) {
            Some(f) => Ok(Arg::Switch(f)),
            None => Err(invalid_flag_message(s)),
        }
    } else {
        match downloadable_of(s) {
            Ok(u) => Ok(Arg::Target(u)),
            Err(e) => Err(e),
        }
    }
}

/// A configuration as plain values: the flags and the URLs, each in the order given.
pub type ConfigView = (Seq<Flag>, Seq<Seq<char>>);

/// What parsing the raw arguments gives: the first error met, or the flags
/// and URLs in the order given.
pub open spec fn config_of(args: Seq<Seq<char>>) -> Result<ConfigView, Seq<char>>
    decreases args.len(),
{
    if args.len() == 0 {
        Ok((Seq::empty(), Seq::empty()))
    } else {
        match config_of(args.drop_last()) {
            Err(e) => Err(e),
            Ok((flags, urls)) => match arg_of(normalized(args.last())) {
                Err(e) => Err(e),
                Ok(Arg::Switch(f)) => Ok((flags.push(f), urls)),
                Ok(Arg::Target(u)) => Ok((flags, urls.push(u))),
            },
        }
    }
}

/// An error met in a prefix of the arguments is the error of the whole list.
proof fn lemma_first_error_stands(args: Seq<Seq<char>>, k: int)
    requires
        0 <= k <= args.len(),
        config_of(args.subrange(0, k)) is Err,
    ensures
        config_of(args) == config_of(args.subrange(0, k)),
    decreases args.len() - k,
{
    if k == args.len() {
        assert(args.subrange(0, k) =~= args);
    } else {
        let longer = args.subrange(0, k + 1);
        assert(longer.drop_last() =~= args.subrange(0, k));
        lemma_first_error_stands(args, k + 1);
    }
}

/// The texts of a list of strings.
pub open spec fn texts(v: Seq<String>) -> Seq<Seq<char>> {
    v.map_values(|s: String| s@)
}

/// The URLs of a list of download targets.
pub open spec fn target_urls(v: Seq<Downloadable>) -> Seq<Seq<char>> {
    v.map_values(|d: Downloadable| d@)
}

/// The parsed command line: flags and download targets, each in the order given.
pub struct Config {
    downloadables: Vec<Downloadable>,
    flags: Vec<Flag>,
}

impl View for Config {
    type V = ConfigView;

    closed spec fn view(&self) -> ConfigView {
        (self.flags@, target_urls(self.downloadables@))
    }
}

/// A parse outcome as plain values.
pub open spec fn config_view(r: Result<Config, ProgramError>) -> Result<ConfigView, Seq<char>> {
    match r {
        Ok(c) => Ok(c@),
        Err(e) => Err(e.message()),
    }
}

impl Config {
    /// Parses the raw arguments (without the program name).
    pub fn from(raw_args: Vec<String>) -> (r: Result<Self, ProgramError>)
        ensures
            config_view(r) == config_of(texts(raw_args@)),
    {
        let mut downloadables: Vec<Downloadable> = Vec::new();
        let mut flags: Vec<Flag> = Vec::new();
        let mut i: usize = 0;
        assert(texts(raw_args@.subrange(0, 0)) =~= Seq::<Seq<char>>::empty());
        assert(target_urls(downloadables@) =~= Seq::<Seq<char>>::empty());
        while i < raw_args.len()
            invariant
                i <= raw_args@.len(),
                config_of(texts(raw_args@.subrange(0, i as int))) == Ok::<ConfigView, Seq<char>>(
                    (flags@, target_urls(downloadables@)),
                ),
            decreases raw_args@.len() - i,
        {
            let ghost seen = raw_args@.subrange(0, i as int);
            let ghost next = raw_args@.subrange(0, i + 1);
            assert(texts(next).drop_last() =~= texts(seen));
            assert(texts(next).last() == raw_args@[i as int]@);
            let arg = normalize_arg(raw_args[i].as_str());
            let ghost a = arg@;
            let ghost old_flags = flags@;
            let ghost old_urls = target_urls(downloadables@);
            assert(texts(next).len() > 0);
            assert(normalized(texts(next).last()) == a);
            if starts_with_dash(arg.as_str()) {
                match Self::map_string_to_flag(arg) {
                    Ok(f) => {
                        assert(arg_of(a) == Ok::<Arg, Seq<char>>(Arg::Switch(f)));
                        flags.push(f);
                        assert(config_of(texts(next)) == Ok::<ConfigView, Seq<char>>(
                            (old_flags.push(f), old_urls),
                        ));
                    },
                    Err(e) => {
                        proof {
                            assert(texts(raw_args@).subrange(0, i + 1) =~= texts(next));
                            lemma_first_error_stands(texts(raw_args@), i + 1);
                        }
                        return Err(e);
                    },
                }
            } else {
                match Downloadable::build(arg) {
                    Ok(d) => {
                        assert(arg_of(a) == Ok::<Arg, Seq<char>>(Arg::Target(d@)));
                        downloadables.push(d);
                        assert(target_urls(downloadables@) =~= target_urls(
                            downloadables@.drop_last(),
                        ).push(d@));
                        assert(target_urls(downloadables@) =~= old_urls.push(d@));
                        assert(config_of(texts(next)) == Ok::<ConfigView, Seq<char>>(
                            (old_flags, old_urls.push(d@)),
                        ));
                    },
                    Err(e) => {
                        proof {
                            assert(texts(raw_args@).subrange(0, i + 1) =~= texts(next));
                            lemma_first_error_stands(texts(raw_args@), i + 1);
                        }
                        return Err(e);
                    },
                }
            }

            i = i + 1;
        }
        assert(raw_args@.subrange(0, i as int) =~= raw_args@);
        Ok(Config { flags, downloadables })
    }

    pub fn get_flags(&self) -> (r: &Vec<Flag>)
        ensures
            r@ == self@.0,
    {
        &self.flags
    }

    pub fn get_downloadables(self) -> (r: Vec<Downloadable>)
        ensures
            target_urls(r@) == self@.1,
    {
        self.downloadables
    }

    /// Looks a normalized flag text up in the flag table.
    fn map_string_to_flag(s: String) -> (r: Result<Flag, ProgramError>)
        ensures
            match flag_named(s@) {
                Some(f) => r == Ok::<Flag, ProgramError>(f),
                None => r matches Err(e) && e.message() == invalid_flag_message(s@),
            },
    {
        let rows = valid_flags();
        let mut i: usize = 0;
        assert(flag_registry().subrange(0, rows@.len() as int) =~= flag_registry());
        while i < rows.len()
            invariant
                i <= rows@.len(),
                rows@.len() == flag_registry().len(),
                forall|k: int| 0 <= k < rows@.len() ==> #[trigger] rows@[k]@ == flag_registry()[k],
                flag_named(s@) == flag_named_in(flag_registry().subrange(i as int, rows@.len() as int), s@),
            decreases rows@.len() - i,
        {
            let row = rows[i];
            assert(row@ == flag_registry()[i as int]);
            let ghost rest = flag_registry().subrange(i as int, rows@.len() as int);
            assert(rest.drop_first() =~= flag_registry().subrange(i + 1, rows@.len() as int));
            let long = String::from_str(row.long_form);
            let short = String::from_str(row.short_form);
            if long == s || short == s {
                return Ok(row.flag);
            }
            i = i + 1;
        }
        let mut message = s;
        message.append(" is not a valid flag");
        Err(ProgramError::new(message))
    }
}

impl Flag {
    /// The help output when the configuration holds the help flag; `Err(())`
    /// when it does not and the run goes on.
    pub fn handle_help_flag(config: &Config) -> (r: Result<String, ()>)
        ensures
            match r {
                Ok(text) => config@.0.contains(Flag::Help) && text@ == help_text(),
                Err(_) => !config@.0.contains(Flag::Help),
            },
    {
        let flags = config.get_flags();
        let mut i: usize = 0;
        while i < flags.len()
            invariant
                i <= flags@.len(),
                flags@ == config@.0,
                forall|k: int| 0 <= k < i ==> flags@[k] != Flag::Help,
            decreases flags@.len() - i,
        {
            if flags[i] == Flag::Help {
                return Ok(render_help());
            }
            i = i + 1;
        }
        Err(())
    }
}

/// The URL that the parser gives for a text it accepts.
pub open spec fn parsed_url(s: Seq<char>) -> Seq<char> {
    url_parse_of(s)->Ok_0
}

/// Arguments that are all valid absolute URLs (after trimming and
/// lowercasing) parse into one download target each, holding the parser's
/// URL, in the order given, and no flags.
pub proof fn lemma_valid_urls_become_targets(args: Seq<Seq<char>>)
    requires
        forall|i: int|
            0 <= i < args.len() ==> !is_flag_text(normalized(#[trigger] args[i])) && url_parse_of(
                normalized(args[i]),
            ) is Ok,
    ensures
        config_of(args) == Ok::<ConfigView, Seq<char>>(
            (Seq::empty(), Seq::new(args.len(), |i: int| parsed_url(normalized(args[i])))),
        ),
    decreases args.len(),
{
    if args.len() > 0 {
        let init = args.drop_last();
        assert forall|i: int| 0 <= i < init.len() implies !is_flag_text(
            normalized(#[trigger] init[i]),
        ) && url_parse_of(normalized(init[i])) is Ok by {
            assert(init[i] == args[i]);
        }
        lemma_valid_urls_become_targets(init);
        let last = args[args.len() - 1];
        assert(url_parse_of(normalized(last)) is Ok);
        assert(Seq::new(init.len(), |i: int| parsed_url(normalized(init[i]))).push(
            parsed_url(normalized(last)),
        ) =~= Seq::new(args.len(), |i: int| parsed_url(normalized(args[i]))));
    } else {
        assert(Seq::new(args.len(), |i: int| parsed_url(normalized(args[i]))) =~= Seq::<
            Seq<char>,
        >::empty());
    }
}

/// When the arguments before position `k` parse and the argument at `k` is
/// not a flag and not a valid absolute URL, parsing fails with the URL error
/// for that argument.
pub proof fn lemma_invalid_url_fails(args: Seq<Seq<char>>, k: int)
    requires
        0 <= k < args.len(),
        config_of(args.subrange(0, k)) is Ok,
        !is_flag_text(normalized(args[k])),
        url_parse_of(normalized(args[k])) is Err,
    ensures
        config_of(args) == Err::<ConfigView, Seq<char>>(
            "Failed to parse url: "@ + url_parse_of(normalized(args[k]))->Err_0,
        ),
{
    assert(args.subrange(0, k + 1).drop_last() =~= args.subrange(0, k));
    lemma_first_error_stands(args, k + 1);
}

/// When the arguments before position `k` parse and the argument at `k`
/// starts with a dash but names no flag, parsing fails with the invalid-flag
/// error for that argument.
pub proof fn lemma_unknown_flag_fails(args: Seq<Seq<char>>, k: int)
    requires
        0 <= k < args.len(),
        config_of(args.subrange(0, k)) is Ok,
        is_flag_text(normalized(args[k])),
        flag_named(normalized(args[k])) is None,
    ensures
        config_of(args) == Err::<ConfigView, Seq<char>>(invalid_flag_message(normalized(args[k]))),
{
    assert(args.subrange(0, k + 1).drop_last() =~= args.subrange(0, k));
    lemma_first_error_stands(args, k + 1);
}

} // verus!
