use vstd::prelude::*;
use crate::cache::CacheMode;
use crate::file_hash::DEFAULT_BUFFER_SIZE;
use crate::number::{parse_usize, parse_usize_text};
use crate::text::{push_str, starts_with, str_eq, suffix_from};

verus! {

/// What a positive count option's value means: the number, or the message
/// that refuses it.
pub open spec fn positive_usize_result(value: Seq<char>, name: Seq<char>) -> Result<usize, Seq<char>> {
    match parse_usize_text(value) {
        None => Err("invalid "@ + name + ": '"@ + value + "'"@),
        Some(v) => if v == 0 {
            Err(name + " must be greater than zero"@)
        } else {
            Ok(v)
        },
    }
}

/// Reads a count that must be a positive decimal number; `name` says what it
/// counts, for the error message.
pub fn parse_positive_usize(value: &str, name: &str) -> (r: Result<usize, String>)
    ensures
        match r {
            Ok(v) => positive_usize_result(value@, name@) == Ok::<usize, Seq<char>>(v),
            Err(e) => positive_usize_result(value@, name@) == Err::<usize, Seq<char>>(e@),
        },
{
    match parse_usize(value) {
        None => {
            let mut e = String::new();
            push_str(&mut e, "invalid ");
            push_str(&mut e, name);
            push_str(&mut e, ": '");
            push_str(&mut e, value);
            push_str(&mut e, "'");
            Err(e)
        },
        Some(v) => {
            if v == 0 {
                let mut e = String::new();
                push_str(&mut e, name);
                push_str(&mut e, " must be greater than zero");
                Err(e)
            } else {
                Ok(v)
            }
        },
    }
}

/// The settings of one run of the program.
pub struct Config {
    /// The checksum file to verify against (`-c`), if any.
    pub check_file: Option<String>,
    /// The files to hash, in order.
    pub files: Vec<String>,
    /// Worker threads.
    pub jobs: usize,
    pub cache_mode: CacheMode,
    /// Mark names with `*` in the output, as `md5sum -b` does.
    pub binary: bool,
    /// Read buffer size in bytes.
    pub buffer_size: usize,
}

/// A [`Config`] as plain values.
pub ghost struct ConfigView {
    pub check_file: Option<Seq<char>>,
    pub files: Seq<Seq<char>>,
    pub jobs: usize,
    pub cache_mode: CacheMode,
    pub binary: bool,
    pub buffer_size: usize,
}

/// The texts of a list of strings.
pub open spec fn texts(v: Seq<String>) -> Seq<Seq<char>> {
    v.map_values(|s: String| s@)
}

impl View for Config {
    type V = ConfigView;

    open spec fn view(&self) -> ConfigView {
        ConfigView {
            check_file: match self.check_file {
                Some(f) => Some(f@),
                None => None,
            },
            files: texts(self.files@),
            jobs: self.jobs,
            cache_mode: self.cache_mode,
            binary: self.binary,
            buffer_size: self.buffer_size,
        }
    }
}

/// What the command line asks for.
pub enum Command {
    /// Hash files, or verify a checksum file.
    Run(Config),
    /// Print the usage text and stop.
    Help,
}

/// A [`Command`] as plain values.
pub ghost enum CommandView {
    Run(ConfigView),
    Help,
}

impl View for Command {
    type V = CommandView;

    open spec fn view(&self) -> CommandView {
        match self {
            Command::Run(c) => CommandView::Run(c@),
            Command::Help => CommandView::Help,
        }
    }
}

/// The settings before any argument is read.
pub open spec fn initial_config(default_jobs: usize) -> ConfigView {
    ConfigView {
        check_file: None,
        files: Seq::empty(),
        jobs: default_jobs,
        cache_mode: CacheMode::KeepCache,
        binary: false,
        buffer_size: DEFAULT_BUFFER_SIZE,
    }
}

/// The outcome once every argument is read: a checksum file cannot be
/// combined with files to hash.
pub open spec fn finish_args(st: ConfigView) -> Result<CommandView, Seq<char>> {
    if st.check_file is Some && st.files.len() > 0 {
        Err("extra operands are not supported with --check"@)
    } else {
        Ok(CommandView::Run(st))
    }
}

/// Reads the arguments from position `i` on, with the settings `st` made by
/// those before it. Options are read left to right; a later one overrides an
/// earlier one; `-h` stops at once; the first error stops at once; after `--`
/// every argument is a file.
pub open spec fn parse_args_from(args: Seq<Seq<char>>, i: int, st: ConfigView) -> Result<
    CommandView,
    Seq<char>,
>
    decreases args.len() - i,
{
    if i < 0 || i >= args.len() {
        finish_args(st)
    } else {
        let a = args[i];
        let has_next = i + 1 < args.len();
        if a == "-h"@ || a == "--help"@ {
            Ok(CommandView::Help)
        } else if a == "-c"@ || a == "--check"@ {
            if has_next {
                parse_args_from(args, i + 2, ConfigView { check_file: Some(args[i + 1]), ..st })
            } else {
                Err("option '"@ + a + "' requires a checksum file"@)
            }
        } else if a == "-j"@ || a == "--jobs"@ {
            if has_next {
                match positive_usize_result(args[i + 1], "jobs"@) {
                    Ok(v) => parse_args_from(args, i + 2, ConfigView { jobs: v, ..st }),
                    Err(e) => Err(e),
                }
            } else {
                Err("option '"@ + a + "' requires a number"@)
            }
        } else if a == "-b"@ || a == "--binary"@ {
            parse_args_from(args, i + 1, ConfigView { binary: true, ..st })
        } else if a == "--keep-cache"@ {
            parse_args_from(args, i + 1, ConfigView { cache_mode: CacheMode::KeepCache, ..st })
        } else if a == "--drop-cache"@ || a == "--no-cache"@ {
            parse_args_from(args, i + 1, ConfigView { cache_mode: CacheMode::DropCache, ..st })
        } else if a == "--direct"@ {
            parse_args_from(args, i + 1, ConfigView { cache_mode: CacheMode::Direct, ..st })
        } else if a == "--buffer-size"@ {
            if has_next {
                match positive_usize_result(args[i + 1], "buffer size"@) {
                    Ok(v) => parse_args_from(args, i + 2, ConfigView { buffer_size: v, ..st }),
                    Err(e) => Err(e),
                }
            } else {
                Err("option '--buffer-size' requires bytes"@)
            }
        } else if a == "--"@ {
            finish_args(
                ConfigView { files: st.files + args.subrange(i + 1, args.len() as int), ..st },
            )
        } else if "-j"@.is_prefix_of(a) && a.len() > 2 {
            match positive_usize_result(a.subrange(2, a.len() as int), "jobs"@) {
                Ok(v) => parse_args_from(args, i + 1, ConfigView { jobs: v, ..st }),
                Err(e) => Err(e),
            }
        } else if "--jobs="@.is_prefix_of(a) {
            match positive_usize_result(a.subrange(7, a.len() as int), "jobs"@) {
                Ok(v) => parse_args_from(args, i + 1, ConfigView { jobs: v, ..st }),
                Err(e) => Err(e),
            }
        } else if "--check="@.is_prefix_of(a) {
            parse_args_from(
                args,
                i + 1,
                ConfigView { check_file: Some(a.subrange(8, a.len() as int)), ..st },
            )
        } else if "--buffer-size="@.is_prefix_of(a) {
            match positive_usize_result(a.subrange(14, a.len() as int), "buffer size"@) {
                Ok(v) => parse_args_from(args, i + 1, ConfigView { buffer_size: v, ..st }),
                Err(e) => Err(e),
            }
        } else if a.len() > 0 && a[0] == '-' && a != "-"@ {
            Err("unrecognized option '"@ + a + "'"@)
        } else {
            parse_args_from(args, i + 1, ConfigView { files: st.files.push(a), ..st })
        }
    }
}

/// What a whole command line asks for.
pub open spec fn parse_args_spec(args: Seq<Seq<char>>, default_jobs: usize) -> Result<
    CommandView,
    Seq<char>,
> {
    parse_args_from(args, 0, initial_config(default_jobs))
}

fn clone_string(s: &String) -> (r: String)
    ensures
        r@ == s@,
{
    s.clone()
}

fn quoted_error(before: &str, a: &str, after: &str) -> (e: String)
    ensures
        e@ == before@ + a@ + after@,
{
    let mut e = String::new();
    push_str(&mut e, before);
    push_str(&mut e, a);
    push_str(&mut e, after);
    e
}

/// Reads the command line (without the program name). `default_jobs` is the
/// worker count used when no `-j` is given.
pub fn parse_args(args: &Vec<String>, default_jobs: usize) -> (r: Result<Command, String>)
    ensures
        match r {
            Ok(c) => parse_args_spec(texts(args@), default_jobs) == Ok::<CommandView, Seq<char>>(c@),
            Err(e) => parse_args_spec(texts(args@), default_jobs) == Err::<CommandView, Seq<char>>(e@),
        },
{
    let ghost all = texts(args@);
    let mut cfg = Config {
        check_file: None,
        files: Vec::new(),
        jobs: default_jobs,
        cache_mode: CacheMode::KeepCache,
        binary: false,
        buffer_size: DEFAULT_BUFFER_SIZE,
    };
    assert(cfg@ == initial_config(default_jobs)) by {
        assert(texts(cfg.files@) =~= Seq::<Seq<char>>::empty());
    }
    let n = args.len();
    let mut i: usize = 0;
    while i < n
        invariant
            n == args@.len(),
            all == texts(args@),
            i <= n,
            parse_args_spec(all, default_jobs) == parse_args_from(all, i as int, cfg@),
        decreases n - i,
    {
        let a: &str = args[i].as_str();
        assert(a@ == all[i as int]);
        let has_next = i + 1 < n;
        if str_eq(a, "-h") || str_eq(a, "--help") {
            return Ok(Command::Help);
        } else if str_eq(a, "-c") || str_eq(a, "--check") {
            if has_next {
                cfg.check_file = Some(clone_string(&args[i + 1]));
                i = i + 2;
            } else {
                return Err(quoted_error("option '", a, "' requires a checksum file"));
            }
        } else if str_eq(a, "-j") || str_eq(a, "--jobs") {
            if has_next {
                match parse_positive_usize(args[i + 1].as_str(), "jobs") {
                    Ok(v) => {
                        cfg.jobs = v;
                        i = i + 2;
                    },
                    Err(e) => return Err(e),
                }
            } else {
                return Err(quoted_error("option '", a, "' requires a number"));
            }
        } else if str_eq(a, "-b") || str_eq(a, "--binary") {
            cfg.binary = true;
            i = i + 1;
        } else if str_eq(a, "--keep-cache") {
            cfg.cache_mode = CacheMode::KeepCache;
            i = i + 1;
        } else if str_eq(a, "--drop-cache") || str_eq(a, "--no-cache") {
            cfg.cache_mode = CacheMode::DropCache;
            i = i + 1;
        } else if str_eq(a, "--direct") {
            cfg.cache_mode = CacheMode::Direct;
            i = i + 1;
        } else if str_eq(a, "--buffer-size") {
            if has_next {
                match parse_positive_usize(args[i + 1].as_str(), "buffer size") {
                    Ok(v) => {
                        cfg.buffer_size = v;
                        i = i + 2;
                    },
                    Err(e) => return Err(e),
                }
            } else {
                let mut e = String::new();
                push_str(&mut e, "option '--buffer-size' requires bytes");
                return Err(e);
            }
        } else if str_eq(a, "--") {
            let ghost pre = cfg@;
            let mut j = i + 1;
            while j < n
                invariant
                    n == args@.len(),
                    all == texts(args@),
                    i < j <= n,
                    cfg@ == (ConfigView { files: pre.files + all.subrange(i + 1, j as int), ..pre }),
                decreases n - j,
            {
                let ghost before = cfg.files@;
                let f = clone_string(&args[j]);
                assert(f@ == all[j as int]);
                cfg.files.push(f);
                proof {
                    assert(texts(cfg.files@) =~= texts(before).push(f@));
                    assert(pre.files + all.subrange(i + 1, j + 1) =~= (pre.files + all.subrange(
                        i + 1,
                        j as int,
                    )).push(all[j as int]));
                }
                j = j + 1;
            }
            if cfg.check_file.is_some() && cfg.files.len() > 0 {
                let mut e = String::new();
                push_str(&mut e, "extra operands are not supported with --check");
                return Err(e);
            }
            return Ok(Command::Run(cfg));
        } else if starts_with(a, "-j") && a.unicode_len() > 2 {
            proof {
                reveal_strlit("-j");
            }
            match parse_positive_usize(suffix_from(a, 2), "jobs") {
                Ok(v) => {
                    cfg.jobs = v;
                    i = i + 1;
                },
                Err(e) => return Err(e),
            }
        } else if starts_with(a, "--jobs=") {
            proof {
                reveal_strlit("--jobs=");
            }
            match parse_positive_usize(suffix_from(a, 7), "jobs") {
                Ok(v) => {
                    cfg.jobs = v;
                    i = i + 1;
                },
                Err(e) => return Err(e),
            }
        } else if starts_with(a, "--check=") {
            proof {
                reveal_strlit("--check=");
            }
            let f = suffix_from(a, 8).to_string();
            cfg.check_file = Some(f);
            i = i + 1;
        } else if starts_with(a, "--buffer-size=") {
            proof {
                reveal_strlit("--buffer-size=");
            }
            match parse_positive_usize(suffix_from(a, 14), "buffer size") {
                Ok(v) => {
                    cfg.buffer_size = v;
                    i = i + 1;
                },
                Err(e) => return Err(e),
            }
        } else if a.unicode_len() > 0 && a.get_char(0) == '-' && !str_eq(a, "-") {
            return Err(quoted_error("unrecognized option '", a, "'"));
        } else {
            let ghost before = cfg.files@;
            cfg.files.push(clone_string(&args[i]));
            proof {
                assert(texts(cfg.files@) =~= texts(before).push(a@));
            }
            i = i + 1;
        }
    }
    if cfg.check_file.is_some() && cfg.files.len() > 0 {
        let mut e = String::new();
        push_str(&mut e, "extra operands are not supported with --check");
        return Err(e);
    }
    Ok(Command::Run(cfg))
}

/// Whether a finished configuration can run: positive counts, and no files
/// to hash beside a checksum file.
pub open spec fn runnable(c: ConfigView) -> bool {
    &&& c.jobs > 0
    &&& c.buffer_size > 0
    &&& !(c.check_file is Some && c.files.len() > 0)
}

proof fn lemma_positive_result(value: Seq<char>, name: Seq<char>)
    ensures
        positive_usize_result(value, name) matches Ok(v) ==> v > 0,
{
}

proof fn lemma_parse_args_from_runnable(args: Seq<Seq<char>>, i: int, st: ConfigView)
    requires
        st.jobs > 0,
        st.buffer_size > 0,
    ensures
        parse_args_from(args, i, st) matches Ok(CommandView::Run(c)) ==> runnable(c),
    decreases args.len() - i,
{
    if 0 <= i < args.len() {
        let a = args[i];
        if i + 1 < args.len() {
            let next = args[i + 1];
            lemma_positive_result(next, "jobs"@);
            lemma_positive_result(next, "buffer size"@);
            lemma_parse_args_from_runnable(args, i + 2, ConfigView { check_file: Some(next), ..st });
            if let Ok(v) = positive_usize_result(next, "jobs"@) {
                lemma_parse_args_from_runnable(args, i + 2, ConfigView { jobs: v, ..st });
            }
            if let Ok(v) = positive_usize_result(next, "buffer size"@) {
                lemma_parse_args_from_runnable(args, i + 2, ConfigView { buffer_size: v, ..st });
            }
        }
        lemma_parse_args_from_runnable(args, i + 1, ConfigView { binary: true, ..st });
        lemma_parse_args_from_runnable(
            args,
            i + 1,
            ConfigView { cache_mode: CacheMode::KeepCache, ..st },
        );
        lemma_parse_args_from_runnable(
            args,
            i + 1,
            ConfigView { cache_mode: CacheMode::DropCache, ..st },
        );
        lemma_parse_args_from_runnable(args, i + 1, ConfigView { cache_mode: CacheMode::Direct, ..st });
        let rest2 = a.subrange(2, a.len() as int);
        let rest7 = a.subrange(7, a.len() as int);
        let rest8 = a.subrange(8, a.len() as int);
        let rest14 = a.subrange(14, a.len() as int);
        lemma_positive_result(rest2, "jobs"@);
        lemma_positive_result(rest7, "jobs"@);
        lemma_positive_result(rest14, "buffer size"@);
        if let Ok(v) = positive_usize_result(rest2, "jobs"@) {
            lemma_parse_args_from_runnable(args, i + 1, ConfigView { jobs: v, ..st });
        }
        if let Ok(v) = positive_usize_result(rest7, "jobs"@) {
            lemma_parse_args_from_runnable(args, i + 1, ConfigView { jobs: v, ..st });
        }
        if let Ok(v) = positive_usize_result(rest14, "buffer size"@) {
            lemma_parse_args_from_runnable(args, i + 1, ConfigView { buffer_size: v, ..st });
        }
        lemma_parse_args_from_runnable(args, i + 1, ConfigView { check_file: Some(rest8), ..st });
        lemma_parse_args_from_runnable(args, i + 1, ConfigView { files: st.files.push(a), ..st });
    }
}

/// Whenever the command line asks for a run, the run is well formed: the job
/// count and buffer size are positive (given a positive default job count),
/// and a checksum file never comes with files to hash.
pub proof fn law_parsed_run_is_runnable(args: Seq<Seq<char>>, default_jobs: usize)
    requires
        default_jobs > 0,
    ensures
        parse_args_spec(args, default_jobs) matches Ok(CommandView::Run(c)) ==> runnable(c),
{
    lemma_parse_args_from_runnable(args, 0, initial_config(default_jobs));
}

/// Reading the arguments from position `i` depends only on the arguments
/// from `i` on: it is reading them as a command line of their own.
#[verifier::rlimit(50)]
pub proof fn lemma_parse_args_shift(args: Seq<Seq<char>>, i: int, st: ConfigView)
    requires
        0 <= i <= args.len(),
    ensures
        parse_args_from(args, i, st) == parse_args_from(args.subrange(i, args.len() as int), 0, st),
    decreases args.len() - i,
{
    let sub = args.subrange(i, args.len() as int);
    if i < args.len() {
        let a = args[i];
        let has_next = i + 1 < args.len();
        assert(sub[0] == a);
        if has_next {
            assert(sub[1] == args[i + 1]);
        }
        if a == "-h"@ || a == "--help"@ {
        } else if a == "-c"@ || a == "--check"@ {
            if has_next {
                lemma_parse_args_shift(args, i + 2, ConfigView { check_file: Some(args[i + 1]), ..st });
                lemma_parse_args_shift(sub, 2, ConfigView { check_file: Some(args[i + 1]), ..st });
                assert(sub.subrange(2, sub.len() as int) =~= args.subrange(i + 2, args.len() as int));
            }
        } else if a == "-j"@ || a == "--jobs"@ {
            if has_next {
                if let Ok(v) = positive_usize_result(args[i + 1], "jobs"@) {
                    lemma_parse_args_shift(args, i + 2, ConfigView { jobs: v, ..st });
                    lemma_parse_args_shift(sub, 2, ConfigView { jobs: v, ..st });
                    assert(sub.subrange(2, sub.len() as int) =~= args.subrange(i + 2, args.len() as int));
                }
            }
        } else if a == "-b"@ || a == "--binary"@ {
            lemma_parse_args_shift(args, i + 1, ConfigView { binary: true, ..st });
            lemma_parse_args_shift(sub, 1, ConfigView { binary: true, ..st });
            assert(sub.subrange(1, sub.len() as int) =~= args.subrange(i + 1, args.len() as int));
        } else if a == "--keep-cache"@ {
            lemma_parse_args_shift(args, i + 1, ConfigView { cache_mode: CacheMode::KeepCache, ..st });
            lemma_parse_args_shift(sub, 1, ConfigView { cache_mode: CacheMode::KeepCache, ..st });
            assert(sub.subrange(1, sub.len() as int) =~= args.subrange(i + 1, args.len() as int));
        } else if a == "--drop-cache"@ || a == "--no-cache"@ {
            lemma_parse_args_shift(args, i + 1, ConfigView { cache_mode: CacheMode::DropCache, ..st });
            lemma_parse_args_shift(sub, 1, ConfigView { cache_mode: CacheMode::DropCache, ..st });
            assert(sub.subrange(1, sub.len() as int) =~= args.subrange(i + 1, args.len() as int));
        } else if a == "--direct"@ {
            lemma_parse_args_shift(args, i + 1, ConfigView { cache_mode: CacheMode::Direct, ..st });
            lemma_parse_args_shift(sub, 1, ConfigView { cache_mode: CacheMode::Direct, ..st });
            assert(sub.subrange(1, sub.len() as int) =~= args.subrange(i + 1, args.len() as int));
        } else if a == "--buffer-size"@ {
            if has_next {
                if let Ok(v) = positive_usize_result(args[i + 1], "buffer size"@) {
                    lemma_parse_args_shift(args, i + 2, ConfigView { buffer_size: v, ..st });
                    lemma_parse_args_shift(sub, 2, ConfigView { buffer_size: v, ..st });
                    assert(sub.subrange(2, sub.len() as int) =~= args.subrange(i + 2, args.len() as int));
                }
            }
        } else if a == "--"@ {
            assert(sub.subrange(1, sub.len() as int) =~= args.subrange(i + 1, args.len() as int));
        } else if "-j"@.is_prefix_of(a) && a.len() > 2 {
            if let Ok(v) = positive_usize_result(a.subrange(2, a.len() as int), "jobs"@) {
                lemma_parse_args_shift(args, i + 1, ConfigView { jobs: v, ..st });
                lemma_parse_args_shift(sub, 1, ConfigView { jobs: v, ..st });
                assert(sub.subrange(1, sub.len() as int) =~= args.subrange(i + 1, args.len() as int));
            }
        } else if "--jobs="@.is_prefix_of(a) {
            if let Ok(v) = positive_usize_result(a.subrange(7, a.len() as int), "jobs"@) {
                lemma_parse_args_shift(args, i + 1, ConfigView { jobs: v, ..st });
                lemma_parse_args_shift(sub, 1, ConfigView { jobs: v, ..st });
                assert(sub.subrange(1, sub.len() as int) =~= args.subrange(i + 1, args.len() as int));
            }
        } else if "--check="@.is_prefix_of(a) {
            lemma_parse_args_shift(args, i + 1, ConfigView { check_file: Some(a.subrange(8, a.len() as int)), ..st });
            lemma_parse_args_shift(sub, 1, ConfigView { check_file: Some(a.subrange(8, a.len() as int)), ..st });
            assert(sub.subrange(1, sub.len() as int) =~= args.subrange(i + 1, args.len() as int));
        } else if "--buffer-size="@.is_prefix_of(a) {
            if let Ok(v) = positive_usize_result(a.subrange(14, a.len() as int), "buffer size"@) {
                lemma_parse_args_shift(args, i + 1, ConfigView { buffer_size: v, ..st });
                lemma_parse_args_shift(sub, 1, ConfigView { buffer_size: v, ..st });
                assert(sub.subrange(1, sub.len() as int) =~= args.subrange(i + 1, args.len() as int));
            }
        } else if a.len() > 0 && a[0] == '-' && a != "-"@ {
        } else {
            lemma_parse_args_shift(args, i + 1, ConfigView { files: st.files.push(a), ..st });
            lemma_parse_args_shift(sub, 1, ConfigView { files: st.files.push(a), ..st });
            assert(sub.subrange(1, sub.len() as int) =~= args.subrange(i + 1, args.len() as int));
        }
    }
}

proof fn lemma_jobs_forms(args: Seq<Seq<char>>, i: int, st: ConfigView)
    requires
        0 <= i < args.len(),
    ensures
        i + 1 < args.len() ==> parse_args_from(args.update(i, "-j"@), i, st) == parse_args_from(
            args.update(i, "--jobs"@),
            i,
            st,
        ),
        i + 1 == args.len() ==> parse_args_from(args.update(i, "-j"@), i, st) is Err
            && parse_args_from(args.update(i, "--jobs"@), i, st) is Err,
{
    reveal_strlit("-h");
    reveal_strlit("--help");
    reveal_strlit("-c");
    reveal_strlit("--check");
    reveal_strlit("-j");
    reveal_strlit("--jobs");
    reveal_strlit("-b");
    reveal_strlit("--binary");
    reveal_strlit("--keep-cache");
    reveal_strlit("--drop-cache");
    reveal_strlit("--no-cache");
    assert("-j"@[1] != "-h"@[1]);
    assert("-j"@[1] != "-c"@[1]);
    assert("-c"@[1] != "-h"@[1]);
    assert("-b"@[1] != "-h"@[1]);
    assert("-b"@[1] != "-c"@[1]);
    assert("-b"@[1] != "-j"@[1]);
    assert("--drop-cache"@[2] != "--keep-cache"@[2]);
    lemma_same_tail(args, i, "-j"@, "--jobs"@, st);
    let x = args.update(i, "-j"@);
    let y = args.update(i, "--jobs"@);
    assert(x[i] == "-j"@);
    assert(y[i] == "--jobs"@);
    if i + 1 < args.len() {
        assert(x[i + 1] == args[i + 1]);
        assert(y[i + 1] == args[i + 1]);
        match positive_usize_result(args[i + 1], "jobs"@) {
            Ok(v) => {
                let st2 = ConfigView { jobs: v, ..st };
                assert(parse_args_from(x, i, st) == parse_args_from(x, i + 2, st2));
                assert(parse_args_from(y, i, st) == parse_args_from(y, i + 2, st2));
            },
            Err(e) => {
                assert(parse_args_from(x, i, st) == Err::<CommandView, Seq<char>>(e));
                assert(parse_args_from(y, i, st) == Err::<CommandView, Seq<char>>(e));
            },
        }
    }
}

proof fn lemma_check_forms(args: Seq<Seq<char>>, i: int, st: ConfigView)
    requires
        0 <= i < args.len(),
    ensures
        i + 1 < args.len() ==> parse_args_from(args.update(i, "-c"@), i, st) == parse_args_from(
            args.update(i, "--check"@),
            i,
            st,
        ),
        i + 1 == args.len() ==> parse_args_from(args.update(i, "-c"@), i, st) is Err
            && parse_args_from(args.update(i, "--check"@), i, st) is Err,
{
    reveal_strlit("-h");
    reveal_strlit("--help");
    reveal_strlit("-c");
    reveal_strlit("--check");
    reveal_strlit("-j");
    reveal_strlit("--jobs");
    reveal_strlit("-b");
    reveal_strlit("--binary");
    reveal_strlit("--keep-cache");
    reveal_strlit("--drop-cache");
    reveal_strlit("--no-cache");
    assert("-j"@[1] != "-h"@[1]);
    assert("-j"@[1] != "-c"@[1]);
    assert("-c"@[1] != "-h"@[1]);
    assert("-b"@[1] != "-h"@[1]);
    assert("-b"@[1] != "-c"@[1]);
    assert("-b"@[1] != "-j"@[1]);
    assert("--drop-cache"@[2] != "--keep-cache"@[2]);
    lemma_same_tail(args, i, "-c"@, "--check"@, st);
    let x = args.update(i, "-c"@);
    let y = args.update(i, "--check"@);
    assert(x[i] == "-c"@);
    assert(y[i] == "--check"@);
    if i + 1 < args.len() {
        let st2 = ConfigView { check_file: Some(args[i + 1]), ..st };
        assert(x[i + 1] == args[i + 1]);
        assert(y[i + 1] == args[i + 1]);
        assert(parse_args_from(x, i, st) == parse_args_from(x, i + 2, st2));
        assert(parse_args_from(y, i, st) == parse_args_from(y, i + 2, st2));
    }
}

proof fn lemma_binary_forms(args: Seq<Seq<char>>, i: int, st: ConfigView)
    requires
        0 <= i < args.len(),
    ensures
        parse_args_from(args.update(i, "-b"@), i, st) == parse_args_from(
            args.update(i, "--binary"@),
            i,
            st,
        ),
{
    reveal_strlit("-h");
    reveal_strlit("--help");
    reveal_strlit("-c");
    reveal_strlit("--check");
    reveal_strlit("-j");
    reveal_strlit("--jobs");
    reveal_strlit("-b");
    reveal_strlit("--binary");
    reveal_strlit("--keep-cache");
    reveal_strlit("--drop-cache");
    reveal_strlit("--no-cache");
    assert("-j"@[1] != "-h"@[1]);
    assert("-j"@[1] != "-c"@[1]);
    assert("-c"@[1] != "-h"@[1]);
    assert("-b"@[1] != "-h"@[1]);
    assert("-b"@[1] != "-c"@[1]);
    assert("-b"@[1] != "-j"@[1]);
    assert("--drop-cache"@[2] != "--keep-cache"@[2]);
    lemma_same_tail(args, i, "-b"@, "--binary"@, st);
    let x = args.update(i, "-b"@);
    let y = args.update(i, "--binary"@);
    assert(x[i] == "-b"@);
    assert(y[i] == "--binary"@);
    let st2 = ConfigView { binary: true, ..st };
    assert(parse_args_from(x, i, st) == parse_args_from(x, i + 1, st2));
    assert(parse_args_from(y, i, st) == parse_args_from(y, i + 1, st2));
}

proof fn lemma_help_forms(args: Seq<Seq<char>>, i: int, st: ConfigView)
    requires
        0 <= i < args.len(),
    ensures
        parse_args_from(args.update(i, "-h"@), i, st) == parse_args_from(
            args.update(i, "--help"@),
            i,
            st,
        ),
{
    reveal_strlit("-h");
    reveal_strlit("--help");
    reveal_strlit("-c");
    reveal_strlit("--check");
    reveal_strlit("-j");
    reveal_strlit("--jobs");
    reveal_strlit("-b");
    reveal_strlit("--binary");
    reveal_strlit("--keep-cache");
    reveal_strlit("--drop-cache");
    reveal_strlit("--no-cache");
    assert("-j"@[1] != "-h"@[1]);
    assert("-j"@[1] != "-c"@[1]);
    assert("-c"@[1] != "-h"@[1]);
    assert("-b"@[1] != "-h"@[1]);
    assert("-b"@[1] != "-c"@[1]);
    assert("-b"@[1] != "-j"@[1]);
    assert("--drop-cache"@[2] != "--keep-cache"@[2]);
    lemma_same_tail(args, i, "-h"@, "--help"@, st);
    let x = args.update(i, "-h"@);
    let y = args.update(i, "--help"@);
    assert(x[i] == "-h"@);
    assert(y[i] == "--help"@);
    assert(parse_args_from(x, i, st) == Ok::<CommandView, Seq<char>>(CommandView::Help));
    assert(parse_args_from(y, i, st) == Ok::<CommandView, Seq<char>>(CommandView::Help));
}

proof fn lemma_drop_cache_forms(args: Seq<Seq<char>>, i: int, st: ConfigView)
    requires
        0 <= i < args.len(),
    ensures
        parse_args_from(args.update(i, "--drop-cache"@), i, st) == parse_args_from(
            args.update(i, "--no-cache"@),
            i,
            st,
        ),
{
    reveal_strlit("-h");
    reveal_strlit("--help");
    reveal_strlit("-c");
    reveal_strlit("--check");
    reveal_strlit("-j");
    reveal_strlit("--jobs");
    reveal_strlit("-b");
    reveal_strlit("--binary");
    reveal_strlit("--keep-cache");
    reveal_strlit("--drop-cache");
    reveal_strlit("--no-cache");
    assert("-j"@[1] != "-h"@[1]);
    assert("-j"@[1] != "-c"@[1]);
    assert("-c"@[1] != "-h"@[1]);
    assert("-b"@[1] != "-h"@[1]);
    assert("-b"@[1] != "-c"@[1]);
    assert("-b"@[1] != "-j"@[1]);
    assert("--drop-cache"@[2] != "--keep-cache"@[2]);
    lemma_same_tail(args, i, "--drop-cache"@, "--no-cache"@, st);
    let x = args.update(i, "--drop-cache"@);
    let y = args.update(i, "--no-cache"@);
    assert(x[i] == "--drop-cache"@);
    assert(y[i] == "--no-cache"@);
    let st2 = ConfigView { cache_mode: CacheMode::DropCache, ..st };
    assert(parse_args_from(x, i, st) == parse_args_from(x, i + 1, st2));
    assert(parse_args_from(y, i, st) == parse_args_from(y, i + 1, st2));
}

/// The long and short spellings of an option mean the same: wherever an
/// option is read, `-j` and `--jobs`, `-c` and `--check`, `-b` and
/// `--binary`, `-h` and `--help`, `--drop-cache` and `--no-cache` give the
/// same outcome for the same command line (an option missing its value is an
/// error in either spelling, whose message names the spelling used).
pub proof fn law_long_and_short_forms(args: Seq<Seq<char>>, i: int, st: ConfigView)
    requires
        0 <= i < args.len(),
    ensures
        i + 1 < args.len() ==> parse_args_from(args.update(i, "-j"@), i, st) == parse_args_from(
            args.update(i, "--jobs"@),
            i,
            st,
        ),
        i + 1 == args.len() ==> parse_args_from(args.update(i, "-j"@), i, st) is Err
            && parse_args_from(args.update(i, "--jobs"@), i, st) is Err,
        i + 1 < args.len() ==> parse_args_from(args.update(i, "-c"@), i, st) == parse_args_from(
            args.update(i, "--check"@),
            i,
            st,
        ),
        i + 1 == args.len() ==> parse_args_from(args.update(i, "-c"@), i, st) is Err
            && parse_args_from(args.update(i, "--check"@), i, st) is Err,
        parse_args_from(args.update(i, "-b"@), i, st) == parse_args_from(
            args.update(i, "--binary"@),
            i,
            st,
        ),
        parse_args_from(args.update(i, "-h"@), i, st) == parse_args_from(
            args.update(i, "--help"@),
            i,
            st,
        ),
        parse_args_from(args.update(i, "--drop-cache"@), i, st) == parse_args_from(
            args.update(i, "--no-cache"@),
            i,
            st,
        ),
{
    lemma_jobs_forms(args, i, st);
    lemma_check_forms(args, i, st);
    lemma_binary_forms(args, i, st);
    lemma_help_forms(args, i, st);
    lemma_drop_cache_forms(args, i, st);
}

/// Two command lines that differ only at position `i` read the same from any
/// later position.
proof fn lemma_same_tail(args: Seq<Seq<char>>, i: int, x: Seq<char>, y: Seq<char>, st: ConfigView)
    requires
        0 <= i < args.len(),
    ensures
        forall|j: int, st2: ConfigView|
            i < j <= args.len() ==> #[trigger] parse_args_from(args.update(i, x), j, st2)
                == parse_args_from(args.update(i, y), j, st2),
{
    assert forall|j: int, st2: ConfigView| i < j <= args.len() implies #[trigger] parse_args_from(
        args.update(i, x),
        j,
        st2,
    ) == parse_args_from(args.update(i, y), j, st2) by {
        lemma_parse_args_shift(args.update(i, x), j, st2);
        lemma_parse_args_shift(args.update(i, y), j, st2);
        assert(args.update(i, x).subrange(j, args.len() as int) =~= args.update(i, y).subrange(
            j,
            args.len() as int,
        ));
    }
}

/// What follows an option that took the value `v`: the settings it makes,
/// then the rest read on its own; or the error for a bad value.
pub open spec fn after_jobs(v: Seq<char>, rest: Seq<Seq<char>>, st: ConfigView) -> Result<CommandView, Seq<char>> {
    match positive_usize_result(v, "jobs"@) {
        Ok(n) => parse_args_from(rest, 0, ConfigView { jobs: n, ..st }),
        Err(e) => Err(e),
    }
}

/// As [`after_jobs`], for a buffer size.
pub open spec fn after_buffer(v: Seq<char>, rest: Seq<Seq<char>>, st: ConfigView) -> Result<CommandView, Seq<char>> {
    match positive_usize_result(v, "buffer size"@) {
        Ok(n) => parse_args_from(rest, 0, ConfigView { buffer_size: n, ..st }),
        Err(e) => Err(e),
    }
}

/// As [`after_jobs`], for a checksum file.
pub open spec fn after_check(v: Seq<char>, rest: Seq<Seq<char>>, st: ConfigView) -> Result<CommandView, Seq<char>> {
    parse_args_from(rest, 0, ConfigView { check_file: Some(v), ..st })
}

proof fn lemma_joined(p: Seq<char>, v: Seq<char>)
    ensures
        (p + v).len() == p.len() + v.len(),
        (p + v).subrange(0, p.len() as int) == p,
        (p + v).subrange(p.len() as int, (p + v).len() as int) == v,
        forall|k: int| 0 <= k < p.len() ==> #[trigger] (p + v)[k] == p[k],
{
    assert((p + v).subrange(0, p.len() as int) =~= p);
    assert((p + v).subrange(p.len() as int, (p + v).len() as int) =~= v);
}

proof fn lemma_split_forms(pre: Seq<Seq<char>>, mid: Seq<Seq<char>>, rest: Seq<Seq<char>>, st: ConfigView)
    ensures
        parse_args_from(pre + mid + rest, pre.len() as int, st) == parse_args_from(mid + rest, 0, st),
{
    lemma_parse_args_shift(pre + mid + rest, pre.len() as int, st);
    assert((pre + mid + rest).subrange(pre.len() as int, (pre + mid + rest).len() as int) =~= mid + rest);
}

proof fn lemma_jobs_value(v: Seq<char>, rest: Seq<Seq<char>>, st: ConfigView)
    ensures
        parse_args_from(seq!["--jobs"@, v] + rest, 0, st) == after_jobs(v, rest, st),
{
    reveal_strlit("-");
    reveal_strlit("--");
    reveal_strlit("--binary");
    reveal_strlit("--buffer-size");
    reveal_strlit("--buffer-size=");
    reveal_strlit("--check");
    reveal_strlit("--check=");
    reveal_strlit("--direct");
    reveal_strlit("--drop-cache");
    reveal_strlit("--help");
    reveal_strlit("--jobs");
    reveal_strlit("--jobs=");
    reveal_strlit("--keep-cache");
    reveal_strlit("--no-cache");
    reveal_strlit("-b");
    reveal_strlit("-c");
    reveal_strlit("-h");
    reveal_strlit("-j");
    let args = seq!["--jobs"@, v] + rest;
    assert(args[0] == "--jobs"@);
    assert(args[1] == v);
    assert(args.subrange(2, args.len() as int) =~= rest);
    assert("-j"@[1] != "-h"@[1]);
    assert("-j"@[1] != "-c"@[1]);
    assert("-c"@[1] != "-h"@[1]);
    if let Ok(n) = positive_usize_result(v, "jobs"@) {
        lemma_parse_args_shift(args, 2, ConfigView { jobs: n, ..st });
    }
}

proof fn lemma_short_jobs_value(v: Seq<char>, rest: Seq<Seq<char>>, st: ConfigView)
    ensures
        parse_args_from(seq!["-j"@, v] + rest, 0, st) == after_jobs(v, rest, st),
{
    reveal_strlit("-");
    reveal_strlit("--");
    reveal_strlit("--binary");
    reveal_strlit("--buffer-size");
    reveal_strlit("--buffer-size=");
    reveal_strlit("--check");
    reveal_strlit("--check=");
    reveal_strlit("--direct");
    reveal_strlit("--drop-cache");
    reveal_strlit("--help");
    reveal_strlit("--jobs");
    reveal_strlit("--jobs=");
    reveal_strlit("--keep-cache");
    reveal_strlit("--no-cache");
    reveal_strlit("-b");
    reveal_strlit("-c");
    reveal_strlit("-h");
    reveal_strlit("-j");
    let args = seq!["-j"@, v] + rest;
    assert(args[0] == "-j"@);
    assert(args[1] == v);
    assert(args.subrange(2, args.len() as int) =~= rest);
    assert("-j"@[1] != "-h"@[1]);
    assert("-j"@[1] != "-c"@[1]);
    assert("-c"@[1] != "-h"@[1]);
    if let Ok(n) = positive_usize_result(v, "jobs"@) {
        lemma_parse_args_shift(args, 2, ConfigView { jobs: n, ..st });
    }
}

proof fn lemma_check_value(v: Seq<char>, rest: Seq<Seq<char>>, st: ConfigView)
    ensures
        parse_args_from(seq!["--check"@, v] + rest, 0, st) == after_check(v, rest, st),
{
    reveal_strlit("-");
    reveal_strlit("--");
    reveal_strlit("--binary");
    reveal_strlit("--buffer-size");
    reveal_strlit("--buffer-size=");
    reveal_strlit("--check");
    reveal_strlit("--check=");
    reveal_strlit("--direct");
    reveal_strlit("--drop-cache");
    reveal_strlit("--help");
    reveal_strlit("--jobs");
    reveal_strlit("--jobs=");
    reveal_strlit("--keep-cache");
    reveal_strlit("--no-cache");
    reveal_strlit("-b");
    reveal_strlit("-c");
    reveal_strlit("-h");
    reveal_strlit("-j");
    let args = seq!["--check"@, v] + rest;
    assert(args[0] == "--check"@);
    assert(args[1] == v);
    assert(args.subrange(2, args.len() as int) =~= rest);
    assert("-j"@[1] != "-h"@[1]);
    assert("-j"@[1] != "-c"@[1]);
    assert("-c"@[1] != "-h"@[1]);
    lemma_parse_args_shift(args, 2, ConfigView { check_file: Some(v), ..st });
}

proof fn lemma_short_check_value(v: Seq<char>, rest: Seq<Seq<char>>, st: ConfigView)
    ensures
        parse_args_from(seq!["-c"@, v] + rest, 0, st) == after_check(v, rest, st),
{
    reveal_strlit("-");
    reveal_strlit("--");
    reveal_strlit("--binary");
    reveal_strlit("--buffer-size");
    reveal_strlit("--buffer-size=");
    reveal_strlit("--check");
    reveal_strlit("--check=");
    reveal_strlit("--direct");
    reveal_strlit("--drop-cache");
    reveal_strlit("--help");
    reveal_strlit("--jobs");
    reveal_strlit("--jobs=");
    reveal_strlit("--keep-cache");
    reveal_strlit("--no-cache");
    reveal_strlit("-b");
    reveal_strlit("-c");
    reveal_strlit("-h");
    reveal_strlit("-j");
    let args = seq!["-c"@, v] + rest;
    assert(args[0] == "-c"@);
    assert(args[1] == v);
    assert(args.subrange(2, args.len() as int) =~= rest);
    assert("-j"@[1] != "-h"@[1]);
    assert("-j"@[1] != "-c"@[1]);
    assert("-c"@[1] != "-h"@[1]);
    lemma_parse_args_shift(args, 2, ConfigView { check_file: Some(v), ..st });
}

proof fn lemma_buffer_value(v: Seq<char>, rest: Seq<Seq<char>>, st: ConfigView)
    ensures
        parse_args_from(seq!["--buffer-size"@, v] + rest, 0, st) == after_buffer(v, rest, st),
{
    reveal_strlit("-");
    reveal_strlit("--");
    reveal_strlit("--binary");
    reveal_strlit("--buffer-size");
    reveal_strlit("--buffer-size=");
    reveal_strlit("--check");
    reveal_strlit("--check=");
    reveal_strlit("--direct");
    reveal_strlit("--drop-cache");
    reveal_strlit("--help");
    reveal_strlit("--jobs");
    reveal_strlit("--jobs=");
    reveal_strlit("--keep-cache");
    reveal_strlit("--no-cache");
    reveal_strlit("-b");
    reveal_strlit("-c");
    reveal_strlit("-h");
    reveal_strlit("-j");
    let args = seq!["--buffer-size"@, v] + rest;
    assert(args[0] == "--buffer-size"@);
    assert(args[1] == v);
    assert(args.subrange(2, args.len() as int) =~= rest);
    assert("-j"@[1] != "-h"@[1]);
    assert("-j"@[1] != "-c"@[1]);
    assert("-c"@[1] != "-h"@[1]);
    if let Ok(n) = positive_usize_result(v, "buffer size"@) {
        lemma_parse_args_shift(args, 2, ConfigView { buffer_size: n, ..st });
    }
}

proof fn lemma_jobs_attached(v: Seq<char>, rest: Seq<Seq<char>>, st: ConfigView)
    ensures
        parse_args_from(seq!["--jobs="@ + v] + rest, 0, st) == after_jobs(v, rest, st),
{
    reveal_strlit("-");
    reveal_strlit("--");
    reveal_strlit("--binary");
    reveal_strlit("--buffer-size");
    reveal_strlit("--buffer-size=");
    reveal_strlit("--check");
    reveal_strlit("--check=");
    reveal_strlit("--direct");
    reveal_strlit("--drop-cache");
    reveal_strlit("--help");
    reveal_strlit("--jobs");
    reveal_strlit("--jobs=");
    reveal_strlit("--keep-cache");
    reveal_strlit("--no-cache");
    reveal_strlit("-b");
    reveal_strlit("-c");
    reveal_strlit("-h");
    reveal_strlit("-j");
    let a = "--jobs="@ + v;
    lemma_joined("--jobs="@, v);
    let args = seq![a] + rest;
    assert(args[0] == a);
    assert(args.subrange(1, args.len() as int) =~= rest);
    assert(a.subrange(7, a.len() as int) == v);
    assert(a[1] != "-h"@[1]);
    assert(a[2] != "--help"@[2]);
    assert(a[1] != "-c"@[1]);
    assert(a[2] != "--check"@[2]);
    assert(a[1] != "-j"@[1]);
    assert(a.len() != "--jobs"@.len());
    assert(a[1] != "-b"@[1]);
    assert(a[2] != "--binary"@[2]);
    assert(a[2] != "--keep-cache"@[2]);
    assert(a[2] != "--drop-cache"@[2]);
    assert(a[2] != "--no-cache"@[2]);
    assert(a[2] != "--direct"@[2]);
    assert(a[2] != "--buffer-size"@[2]);
    assert(a.len() != "--"@.len());
    assert(a.subrange(0, 2)[1] != "-j"@[1]);
    assert(a.subrange(0, 7) =~= "--jobs="@);
    if let Ok(n) = positive_usize_result(v, "jobs"@) {
        lemma_parse_args_shift(args, 1, ConfigView { jobs: n, ..st });
    }
}

proof fn lemma_short_jobs_attached(v: Seq<char>, rest: Seq<Seq<char>>, st: ConfigView)
    requires
        v.len() > 0,
    ensures
        parse_args_from(seq!["-j"@ + v] + rest, 0, st) == after_jobs(v, rest, st),
{
    reveal_strlit("-");
    reveal_strlit("--");
    reveal_strlit("--binary");
    reveal_strlit("--buffer-size");
    reveal_strlit("--buffer-size=");
    reveal_strlit("--check");
    reveal_strlit("--check=");
    reveal_strlit("--direct");
    reveal_strlit("--drop-cache");
    reveal_strlit("--help");
    reveal_strlit("--jobs");
    reveal_strlit("--jobs=");
    reveal_strlit("--keep-cache");
    reveal_strlit("--no-cache");
    reveal_strlit("-b");
    reveal_strlit("-c");
    reveal_strlit("-h");
    reveal_strlit("-j");
    let a = "-j"@ + v;
    lemma_joined("-j"@, v);
    let args = seq![a] + rest;
    assert(args[0] == a);
    assert(args.subrange(1, args.len() as int) =~= rest);
    assert(a.subrange(2, a.len() as int) == v);
    assert(a[1] != "-h"@[1]);
    assert(a[1] != "--help"@[1]);
    assert(a[1] != "-c"@[1]);
    assert(a[1] != "--check"@[1]);
    assert(a.len() != "-j"@.len());
    assert(a[1] != "--jobs"@[1]);
    assert(a[1] != "-b"@[1]);
    assert(a[1] != "--binary"@[1]);
    assert(a[1] != "--keep-cache"@[1]);
    assert(a[1] != "--drop-cache"@[1]);
    assert(a[1] != "--no-cache"@[1]);
    assert(a[1] != "--direct"@[1]);
    assert(a[1] != "--buffer-size"@[1]);
    assert(a[1] != "--"@[1]);
    assert(a.subrange(0, 2) =~= "-j"@);
    if let Ok(n) = positive_usize_result(v, "jobs"@) {
        lemma_parse_args_shift(args, 1, ConfigView { jobs: n, ..st });
    }
}

proof fn lemma_check_attached(v: Seq<char>, rest: Seq<Seq<char>>, st: ConfigView)
    ensures
        parse_args_from(seq!["--check="@ + v] + rest, 0, st) == after_check(v, rest, st),
{
    reveal_strlit("-");
    reveal_strlit("--");
    reveal_strlit("--binary");
    reveal_strlit("--buffer-size");
    reveal_strlit("--buffer-size=");
    reveal_strlit("--check");
    reveal_strlit("--check=");
    reveal_strlit("--direct");
    reveal_strlit("--drop-cache");
    reveal_strlit("--help");
    reveal_strlit("--jobs");
    reveal_strlit("--jobs=");
    reveal_strlit("--keep-cache");
    reveal_strlit("--no-cache");
    reveal_strlit("-b");
    reveal_strlit("-c");
    reveal_strlit("-h");
    reveal_strlit("-j");
    let a = "--check="@ + v;
    lemma_joined("--check="@, v);
    let args = seq![a] + rest;
    assert(args[0] == a);
    assert(args.subrange(1, args.len() as int) =~= rest);
    assert(a.subrange(8, a.len() as int) == v);
    assert(a[1] != "-h"@[1]);
    assert(a[2] != "--help"@[2]);
    assert(a[1] != "-c"@[1]);
    assert(a.len() != "--check"@.len());
    assert(a[1] != "-j"@[1]);
    assert(a[2] != "--jobs"@[2]);
    assert(a[1] != "-b"@[1]);
    assert(a[2] != "--binary"@[2]);
    assert(a[2] != "--keep-cache"@[2]);
    assert(a[2] != "--drop-cache"@[2]);
    assert(a[2] != "--no-cache"@[2]);
    assert(a[2] != "--direct"@[2]);
    assert(a[2] != "--buffer-size"@[2]);
    assert(a.len() != "--"@.len());
    assert(a.subrange(0, 2)[1] != "-j"@[1]);
    assert(a.subrange(0, 7)[2] != "--jobs="@[2]);
    assert(a.subrange(0, 8) =~= "--check="@);
    lemma_parse_args_shift(args, 1, ConfigView { check_file: Some(v), ..st });
}

proof fn lemma_buffer_attached(v: Seq<char>, rest: Seq<Seq<char>>, st: ConfigView)
    ensures
        parse_args_from(seq!["--buffer-size="@ + v] + rest, 0, st) == after_buffer(v, rest, st),
{
    reveal_strlit("-");
    reveal_strlit("--");
    reveal_strlit("--binary");
    reveal_strlit("--buffer-size");
    reveal_strlit("--buffer-size=");
    reveal_strlit("--check");
    reveal_strlit("--check=");
    reveal_strlit("--direct");
    reveal_strlit("--drop-cache");
    reveal_strlit("--help");
    reveal_strlit("--jobs");
    reveal_strlit("--jobs=");
    reveal_strlit("--keep-cache");
    reveal_strlit("--no-cache");
    reveal_strlit("-b");
    reveal_strlit("-c");
    reveal_strlit("-h");
    reveal_strlit("-j");
    let a = "--buffer-size="@ + v;
    lemma_joined("--buffer-size="@, v);
    let args = seq![a] + rest;
    assert(args[0] == a);
    assert(args.subrange(1, args.len() as int) =~= rest);
    assert(a.subrange(14, a.len() as int) == v);
    assert(a[1] != "-h"@[1]);
    assert(a[2] != "--help"@[2]);
    assert(a[1] != "-c"@[1]);
    assert(a[2] != "--check"@[2]);
    assert(a[1] != "-j"@[1]);
    assert(a[2] != "--jobs"@[2]);
    assert(a[1] != "-b"@[1]);
    assert(a[3] != "--binary"@[3]);
    assert(a[2] != "--keep-cache"@[2]);
    assert(a[2] != "--drop-cache"@[2]);
    assert(a[2] != "--no-cache"@[2]);
    assert(a[2] != "--direct"@[2]);
    assert(a.len() != "--buffer-size"@.len());
    assert(a.len() != "--"@.len());
    assert(a.subrange(0, 2)[1] != "-j"@[1]);
    assert(a.subrange(0, 7)[2] != "--jobs="@[2]);
    assert(a.subrange(0, 8)[2] != "--check="@[2]);
    assert(a.subrange(0, 14) =~= "--buffer-size="@);
    if let Ok(n) = positive_usize_result(v, "buffer size"@) {
        lemma_parse_args_shift(args, 1, ConfigView { buffer_size: n, ..st });
    }
}

/// An option's value may follow it as the next argument or be attached to
/// it: `--jobs N` reads as `--jobs=N`, `-j N` as `-jN`, `-c F` and
/// `--check F` as `--check=F`, `--buffer-size N` as `--buffer-size=N`. In
/// every form the value is consumed by the option, never read as a file, and
/// the arguments after it are read as a command line of their own with the
/// value's setting in force.
pub proof fn law_attached_values(
    pre: Seq<Seq<char>>,
    v: Seq<char>,
    rest: Seq<Seq<char>>,
    st: ConfigView,
)
    ensures
        parse_args_from(pre + seq!["--jobs"@, v] + rest, pre.len() as int, st) == after_jobs(v, rest, st),
        parse_args_from(pre + seq!["-j"@, v] + rest, pre.len() as int, st) == after_jobs(v, rest, st),
        parse_args_from(pre + seq!["--jobs="@ + v] + rest, pre.len() as int, st) == after_jobs(v, rest, st),
        v.len() > 0 ==> parse_args_from(pre + seq!["-j"@ + v] + rest, pre.len() as int, st)
            == after_jobs(v, rest, st),
        parse_args_from(pre + seq!["--check"@, v] + rest, pre.len() as int, st) == after_check(v, rest, st),
        parse_args_from(pre + seq!["-c"@, v] + rest, pre.len() as int, st) == after_check(v, rest, st),
        parse_args_from(pre + seq!["--check="@ + v] + rest, pre.len() as int, st) == after_check(v, rest, st),
        parse_args_from(pre + seq!["--buffer-size"@, v] + rest, pre.len() as int, st)
            == after_buffer(v, rest, st),
        parse_args_from(pre + seq!["--buffer-size="@ + v] + rest, pre.len() as int, st)
            == after_buffer(v, rest, st),
{
    lemma_split_forms(pre, seq!["--jobs"@, v], rest, st);
    lemma_split_forms(pre, seq!["-j"@, v], rest, st);
    lemma_split_forms(pre, seq!["--jobs="@ + v], rest, st);
    lemma_split_forms(pre, seq!["-j"@ + v], rest, st);
    lemma_split_forms(pre, seq!["--check"@, v], rest, st);
    lemma_split_forms(pre, seq!["-c"@, v], rest, st);
    lemma_split_forms(pre, seq!["--check="@ + v], rest, st);
    lemma_split_forms(pre, seq!["--buffer-size"@, v], rest, st);
    lemma_split_forms(pre, seq!["--buffer-size="@ + v], rest, st);
    lemma_jobs_value(v, rest, st);
    lemma_short_jobs_value(v, rest, st);
    lemma_jobs_attached(v, rest, st);
    if v.len() > 0 {
        lemma_short_jobs_attached(v, rest, st);
    }
    lemma_check_value(v, rest, st);
    lemma_short_check_value(v, rest, st);
    lemma_check_attached(v, rest, st);
    lemma_buffer_value(v, rest, st);
    lemma_buffer_attached(v, rest, st);
}

proof fn lemma_binary_flag(rest: Seq<Seq<char>>, st: ConfigView)
    ensures
        parse_args_from(seq!["-b"@] + rest, 0, st) == parse_args_from(rest, 0, ConfigView { binary: true, ..st }),
{
    reveal_strlit("-");
    reveal_strlit("--");
    reveal_strlit("--binary");
    reveal_strlit("--buffer-size");
    reveal_strlit("--buffer-size=");
    reveal_strlit("--check");
    reveal_strlit("--check=");
    reveal_strlit("--direct");
    reveal_strlit("--drop-cache");
    reveal_strlit("--help");
    reveal_strlit("--jobs");
    reveal_strlit("--jobs=");
    reveal_strlit("--keep-cache");
    reveal_strlit("--no-cache");
    reveal_strlit("-b");
    reveal_strlit("-c");
    reveal_strlit("-h");
    reveal_strlit("-j");
    assert("-b"@[1] != "-h"@[1]);
    assert("-b"@[1] != "-c"@[1]);
    assert("-b"@[1] != "-j"@[1]);
    let args = seq!["-b"@] + rest;
    assert(args[0] == "-b"@);
    assert(args.subrange(1, args.len() as int) =~= rest);
    lemma_parse_args_shift(args, 1, ConfigView { binary: true, ..st });
}

proof fn lemma_long_binary_flag(rest: Seq<Seq<char>>, st: ConfigView)
    ensures
        parse_args_from(seq!["--binary"@] + rest, 0, st) == parse_args_from(rest, 0, ConfigView { binary: true, ..st }),
{
    reveal_strlit("-");
    reveal_strlit("--");
    reveal_strlit("--binary");
    reveal_strlit("--buffer-size");
    reveal_strlit("--buffer-size=");
    reveal_strlit("--check");
    reveal_strlit("--check=");
    reveal_strlit("--direct");
    reveal_strlit("--drop-cache");
    reveal_strlit("--help");
    reveal_strlit("--jobs");
    reveal_strlit("--jobs=");
    reveal_strlit("--keep-cache");
    reveal_strlit("--no-cache");
    reveal_strlit("-b");
    reveal_strlit("-c");
    reveal_strlit("-h");
    reveal_strlit("-j");

    let args = seq!["--binary"@] + rest;
    assert(args[0] == "--binary"@);
    assert(args.subrange(1, args.len() as int) =~= rest);
    lemma_parse_args_shift(args, 1, ConfigView { binary: true, ..st });
}

proof fn lemma_keep_cache_flag(rest: Seq<Seq<char>>, st: ConfigView)
    ensures
        parse_args_from(seq!["--keep-cache"@] + rest, 0, st) == parse_args_from(rest, 0, ConfigView { cache_mode: CacheMode::KeepCache, ..st }),
{
    reveal_strlit("-");
    reveal_strlit("--");
    reveal_strlit("--binary");
    reveal_strlit("--buffer-size");
    reveal_strlit("--buffer-size=");
    reveal_strlit("--check");
    reveal_strlit("--check=");
    reveal_strlit("--direct");
    reveal_strlit("--drop-cache");
    reveal_strlit("--help");
    reveal_strlit("--jobs");
    reveal_strlit("--jobs=");
    reveal_strlit("--keep-cache");
    reveal_strlit("--no-cache");
    reveal_strlit("-b");
    reveal_strlit("-c");
    reveal_strlit("-h");
    reveal_strlit("-j");

    let args = seq!["--keep-cache"@] + rest;
    assert(args[0] == "--keep-cache"@);
    assert(args.subrange(1, args.len() as int) =~= rest);
    lemma_parse_args_shift(args, 1, ConfigView { cache_mode: CacheMode::KeepCache, ..st });
}

proof fn lemma_drop_cache_flag(rest: Seq<Seq<char>>, st: ConfigView)
    ensures
        parse_args_from(seq!["--drop-cache"@] + rest, 0, st) == parse_args_from(rest, 0, ConfigView { cache_mode: CacheMode::DropCache, ..st }),
{
    reveal_strlit("-");
    reveal_strlit("--");
    reveal_strlit("--binary");
    reveal_strlit("--buffer-size");
    reveal_strlit("--buffer-size=");
    reveal_strlit("--check");
    reveal_strlit("--check=");
    reveal_strlit("--direct");
    reveal_strlit("--drop-cache");
    reveal_strlit("--help");
    reveal_strlit("--jobs");
    reveal_strlit("--jobs=");
    reveal_strlit("--keep-cache");
    reveal_strlit("--no-cache");
    reveal_strlit("-b");
    reveal_strlit("-c");
    reveal_strlit("-h");
    reveal_strlit("-j");
    assert("--drop-cache"@[2] != "--keep-cache"@[2]);
    let args = seq!["--drop-cache"@] + rest;
    assert(args[0] == "--drop-cache"@);
    assert(args.subrange(1, args.len() as int) =~= rest);
    lemma_parse_args_shift(args, 1, ConfigView { cache_mode: CacheMode::DropCache, ..st });
}

proof fn lemma_no_cache_flag(rest: Seq<Seq<char>>, st: ConfigView)
    ensures
        parse_args_from(seq!["--no-cache"@] + rest, 0, st) == parse_args_from(rest, 0, ConfigView { cache_mode: CacheMode::DropCache, ..st }),
{
    reveal_strlit("-");
    reveal_strlit("--");
    reveal_strlit("--binary");
    reveal_strlit("--buffer-size");
    reveal_strlit("--buffer-size=");
    reveal_strlit("--check");
    reveal_strlit("--check=");
    reveal_strlit("--direct");
    reveal_strlit("--drop-cache");
    reveal_strlit("--help");
    reveal_strlit("--jobs");
    reveal_strlit("--jobs=");
    reveal_strlit("--keep-cache");
    reveal_strlit("--no-cache");
    reveal_strlit("-b");
    reveal_strlit("-c");
    reveal_strlit("-h");
    reveal_strlit("-j");

    let args = seq!["--no-cache"@] + rest;
    assert(args[0] == "--no-cache"@);
    assert(args.subrange(1, args.len() as int) =~= rest);
    lemma_parse_args_shift(args, 1, ConfigView { cache_mode: CacheMode::DropCache, ..st });
}

proof fn lemma_direct_flag(rest: Seq<Seq<char>>, st: ConfigView)
    ensures
        parse_args_from(seq!["--direct"@] + rest, 0, st) == parse_args_from(rest, 0, ConfigView { cache_mode: CacheMode::Direct, ..st }),
{
    reveal_strlit("-");
    reveal_strlit("--");
    reveal_strlit("--binary");
    reveal_strlit("--buffer-size");
    reveal_strlit("--buffer-size=");
    reveal_strlit("--check");
    reveal_strlit("--check=");
    reveal_strlit("--direct");
    reveal_strlit("--drop-cache");
    reveal_strlit("--help");
    reveal_strlit("--jobs");
    reveal_strlit("--jobs=");
    reveal_strlit("--keep-cache");
    reveal_strlit("--no-cache");
    reveal_strlit("-b");
    reveal_strlit("-c");
    reveal_strlit("-h");
    reveal_strlit("-j");
    assert("--direct"@[2] != "--binary"@[2]);
    let args = seq!["--direct"@] + rest;
    assert(args[0] == "--direct"@);
    assert(args.subrange(1, args.len() as int) =~= rest);
    lemma_parse_args_shift(args, 1, ConfigView { cache_mode: CacheMode::Direct, ..st });
}

proof fn lemma_file_arg(f: Seq<char>, rest: Seq<Seq<char>>, st: ConfigView)
    requires
        f.len() == 0 || f[0] != '-' || f == "-"@,
    ensures
        parse_args_from(seq![f] + rest, 0, st) == parse_args_from(
            rest,
            0,
            ConfigView { files: st.files.push(f), ..st },
        ),
{
    reveal_strlit("-");
    reveal_strlit("--");
    reveal_strlit("--binary");
    reveal_strlit("--buffer-size");
    reveal_strlit("--buffer-size=");
    reveal_strlit("--check");
    reveal_strlit("--check=");
    reveal_strlit("--direct");
    reveal_strlit("--drop-cache");
    reveal_strlit("--help");
    reveal_strlit("--jobs");
    reveal_strlit("--jobs=");
    reveal_strlit("--keep-cache");
    reveal_strlit("--no-cache");
    reveal_strlit("-b");
    reveal_strlit("-c");
    reveal_strlit("-h");
    reveal_strlit("-j");
    let args = seq![f] + rest;
    assert(args[0] == f);
    assert(args.subrange(1, args.len() as int) =~= rest);
    if f.len() > 0 && f[0] == '-' {
        assert(f.len() == 1);
    } else {
        assert(f != "-h"@) by { if f.len() > 0 && f.len() == "-h"@.len() { assert(f[0] != "-h"@[0]); } }
        assert(f != "--help"@) by { if f.len() > 0 && f.len() == "--help"@.len() { assert(f[0] != "--help"@[0]); } }
        assert(f != "-c"@) by { if f.len() > 0 && f.len() == "-c"@.len() { assert(f[0] != "-c"@[0]); } }
        assert(f != "--check"@) by { if f.len() > 0 && f.len() == "--check"@.len() { assert(f[0] != "--check"@[0]); } }
        assert(f != "-j"@) by { if f.len() > 0 && f.len() == "-j"@.len() { assert(f[0] != "-j"@[0]); } }
        assert(f != "--jobs"@) by { if f.len() > 0 && f.len() == "--jobs"@.len() { assert(f[0] != "--jobs"@[0]); } }
        assert(f != "-b"@) by { if f.len() > 0 && f.len() == "-b"@.len() { assert(f[0] != "-b"@[0]); } }
        assert(f != "--binary"@) by { if f.len() > 0 && f.len() == "--binary"@.len() { assert(f[0] != "--binary"@[0]); } }
        assert(f != "--keep-cache"@) by { if f.len() > 0 && f.len() == "--keep-cache"@.len() { assert(f[0] != "--keep-cache"@[0]); } }
        assert(f != "--drop-cache"@) by { if f.len() > 0 && f.len() == "--drop-cache"@.len() { assert(f[0] != "--drop-cache"@[0]); } }
        assert(f != "--no-cache"@) by { if f.len() > 0 && f.len() == "--no-cache"@.len() { assert(f[0] != "--no-cache"@[0]); } }
        assert(f != "--direct"@) by { if f.len() > 0 && f.len() == "--direct"@.len() { assert(f[0] != "--direct"@[0]); } }
        assert(f != "--buffer-size"@) by { if f.len() > 0 && f.len() == "--buffer-size"@.len() { assert(f[0] != "--buffer-size"@[0]); } }
        assert(f != "--"@) by { if f.len() > 0 && f.len() == "--"@.len() { assert(f[0] != "--"@[0]); } }
        assert(!"-j"@.is_prefix_of(f)) by { if "-j"@.len() <= f.len() { assert(f.subrange(0, "-j"@.len() as int)[0] != "-j"@[0]); } }
        assert(!"--jobs="@.is_prefix_of(f)) by { if "--jobs="@.len() <= f.len() { assert(f.subrange(0, "--jobs="@.len() as int)[0] != "--jobs="@[0]); } }
        assert(!"--check="@.is_prefix_of(f)) by { if "--check="@.len() <= f.len() { assert(f.subrange(0, "--check="@.len() as int)[0] != "--check="@[0]); } }
        assert(!"--buffer-size="@.is_prefix_of(f)) by { if "--buffer-size="@.len() <= f.len() { assert(f.subrange(0, "--buffer-size="@.len() as int)[0] != "--buffer-size="@[0]); } }
    }
    lemma_parse_args_shift(args, 1, ConfigView { files: st.files.push(f), ..st });
}

/// Switches and files each take one argument and leave the rest to be read
/// as a command line of its own: `-b`/`--binary` turns binary mode on,
/// `--keep-cache`, `--drop-cache`/`--no-cache` and `--direct` choose the
/// cache mode, and an argument that is not an option (`-` included) is added
/// to the files to hash, after those before it.
pub proof fn law_switches_and_files(
    pre: Seq<Seq<char>>,
    f: Seq<char>,
    rest: Seq<Seq<char>>,
    st: ConfigView,
)
    ensures
        parse_args_from(pre + seq!["-b"@] + rest, pre.len() as int, st) == parse_args_from(
            rest,
            0,
            ConfigView { binary: true, ..st },
        ),
        parse_args_from(pre + seq!["--binary"@] + rest, pre.len() as int, st) == parse_args_from(
            rest,
            0,
            ConfigView { binary: true, ..st },
        ),
        parse_args_from(pre + seq!["--keep-cache"@] + rest, pre.len() as int, st) == parse_args_from(
            rest,
            0,
            ConfigView { cache_mode: CacheMode::KeepCache, ..st },
        ),
        parse_args_from(pre + seq!["--drop-cache"@] + rest, pre.len() as int, st) == parse_args_from(
            rest,
            0,
            ConfigView { cache_mode: CacheMode::DropCache, ..st },
        ),
        parse_args_from(pre + seq!["--no-cache"@] + rest, pre.len() as int, st) == parse_args_from(
            rest,
            0,
            ConfigView { cache_mode: CacheMode::DropCache, ..st },
        ),
        parse_args_from(pre + seq!["--direct"@] + rest, pre.len() as int, st) == parse_args_from(
            rest,
            0,
            ConfigView { cache_mode: CacheMode::Direct, ..st },
        ),
        f.len() == 0 || f[0] != '-' || f == "-"@ ==> parse_args_from(
            pre + seq![f] + rest,
            pre.len() as int,
            st,
        ) == parse_args_from(rest, 0, ConfigView { files: st.files.push(f), ..st }),
{
    lemma_split_forms(pre, seq!["-b"@], rest, st);
    lemma_binary_flag(rest, st);
    lemma_split_forms(pre, seq!["--binary"@], rest, st);
    lemma_long_binary_flag(rest, st);
    lemma_split_forms(pre, seq!["--keep-cache"@], rest, st);
    lemma_keep_cache_flag(rest, st);
    lemma_split_forms(pre, seq!["--drop-cache"@], rest, st);
    lemma_drop_cache_flag(rest, st);
    lemma_split_forms(pre, seq!["--no-cache"@], rest, st);
    lemma_no_cache_flag(rest, st);
    lemma_split_forms(pre, seq!["--direct"@], rest, st);
    lemma_direct_flag(rest, st);
    lemma_split_forms(pre, seq![f], rest, st);
    if f.len() == 0 || f[0] != '-' || f == "-"@ {
        lemma_file_arg(f, rest, st);
    }
}

} // verus!
