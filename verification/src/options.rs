//! The command line of the benchmark, and the lines that announce it.

use crate::size::{
    bytes_text, checked_parse_size, format_bytes, invalid_size, size_value, GIB, KIB,
};
use crate::text::{
    decimal, law_split, push_decimal, same_text, split, split_parts, texts, trimmed,
};
use vstd::prelude::*;
use vstd::string::StringExecFns;

verus! {

broadcast use vstd::string::group_string_axioms;

/// What is transferred if nothing else is asked for: 1 GiB.
pub const DEFAULT_TOTAL_BYTES: u64 = GIB;

/// The buffer if nothing else is asked for: 64 KiB.
pub const DEFAULT_BUFFER_SIZE: u64 = 0x1_0000;

/// What the benchmark is to do.
#[derive(Debug)]
pub struct BenchConfig {
    pub eif_path: String,
    pub total_bytes: u64,
    pub buffer_sizes: Vec<u64>,
    pub reverse: bool,
}

/// A configuration, its texts and lists as sequences.
pub struct ConfigView {
    pub eif_path: Seq<char>,
    pub total_bytes: u64,
    pub buffer_sizes: Seq<u64>,
    pub reverse: bool,
}

impl View for BenchConfig {
    type V = ConfigView;

    open spec fn view(&self) -> ConfigView {
        ConfigView {
            eif_path: self.eif_path@,
            total_bytes: self.total_bytes,
            buffer_sizes: self.buffer_sizes@,
            reverse: self.reverse,
        }
    }
}

/// What reading a part of the command line comes to.
pub enum Reading<T> {
    /// The value that was read.
    Value(T),
    /// Nothing can be read, for this reason.
    Error(Seq<char>),
    /// A size does not fit in 64 bits.
    TooLarge,
}

/// What one size comes to.
pub open spec fn size_reading(s: Seq<char>) -> Reading<u64> {
    match size_value(s) {
        None => Reading::Error(invalid_size(s)),
        Some(v) => if v <= u64::MAX {
            Reading::Value(v as u64)
        } else {
            Reading::TooLarge
        },
    }
}

/// What the first `n` sizes of a list come to; the first that cannot be read decides.
pub open spec fn sizes_reading(parts: Seq<Seq<char>>, n: nat) -> Reading<Seq<u64>>
    decreases n,
{
    if n == 0 {
        Reading::Value(Seq::empty())
    } else {
        match sizes_reading(parts, (n - 1) as nat) {
            Reading::Value(sizes) => match size_reading(parts[n - 1]) {
                Reading::Value(v) => Reading::Value(sizes.push(v)),
                Reading::Error(e) => Reading::Error(e),
                Reading::TooLarge => Reading::TooLarge,
            },
            other => other,
        }
    }
}

/// What a comma-separated list of sizes comes to.
pub open spec fn size_list_reading(s: Seq<char>) -> Reading<Seq<u64>> {
    let parts = split_parts(s, ',');
    sizes_reading(parts, parts.len())
}

/// What the options from the `i`-th argument on make of a configuration. They are
/// read from left to right; a later one wins over an earlier one of its kind.
pub open spec fn options_reading(
    args: Seq<Seq<char>>,
    i: nat,
    config: ConfigView,
) -> Reading<ConfigView>
    decreases args.len() - i,
{
    if i >= args.len() {
        Reading::Value(config)
    } else if args[i as int] == "--size"@ {
        if i + 1 >= args.len() {
            Reading::Error("--size requires a value"@)
        } else {
            match size_reading(args[(i + 1) as int]) {
                Reading::Value(v) => options_reading(
                    args,
                    i + 2,
                    ConfigView { total_bytes: v, ..config },
                ),
                Reading::Error(e) => Reading::Error(e),
                Reading::TooLarge => Reading::TooLarge,
            }
        }
    } else if args[i as int] == "--buffer-sizes"@ {
        if i + 1 >= args.len() {
            Reading::Error("--buffer-sizes requires a value"@)
        } else {
            match size_list_reading(args[(i + 1) as int]) {
                Reading::Value(v) => options_reading(
                    args,
                    i + 2,
                    ConfigView { buffer_sizes: v, ..config },
                ),
                Reading::Error(e) => Reading::Error(e),
                Reading::TooLarge => Reading::TooLarge,
            }
        }
    } else if args[i as int] == "--no-reverse"@ {
        options_reading(args, i + 1, ConfigView { reverse: false, ..config })
    } else {
        Reading::Error("Unknown option: "@ + args[i as int])
    }
}

/// The configuration of an image with no option given.
pub open spec fn default_config(eif_path: Seq<char>) -> ConfigView {
    ConfigView {
        eif_path,
        total_bytes: DEFAULT_TOTAL_BYTES,
        buffer_sizes: seq![DEFAULT_BUFFER_SIZE],
        reverse: true,
    }
}

/// What a command line comes to: the program, the image, then options.
pub open spec fn args_reading(args: Seq<Seq<char>>) -> Reading<ConfigView> {
    if args.len() < 2 {
        Reading::Error("Missing EIF path"@)
    } else {
        options_reading(args, 2, default_config(args[1]))
    }
}

/// The characters of each argument.
pub open spec fn arg_texts(args: Seq<String>) -> Seq<Seq<char>> {
    args.map_values(|a: String| a@)
}

fn parse_size_list(s: &str) -> (r: Option<Result<Vec<u64>, String>>)
    ensures
        match r {
            Some(Ok(v)) => size_list_reading(s@) == Reading::Value(v@),
            Some(Err(e)) => size_list_reading(s@) == Reading::<Seq<u64>>::Error(e@),
            None => size_list_reading(s@) == Reading::<Seq<u64>>::TooLarge,
        },
{
    let parts: Vec<&str> = split(s, ',');
    let ghost all = split_parts(s@, ',');
    let mut sizes: Vec<u64> = Vec::new();
    let mut i: usize = 0;
    while i < parts.len()
        invariant
            i <= parts@.len(),
            texts(parts@) == all,
            all == split_parts(s@, ','),
            sizes_reading(all, i as nat) == Reading::Value(sizes@),
        decreases parts.len() - i,
    {
        proof {
            lemma_sizes_reading_stays(all, (i + 1) as nat, all.len());
            assert(all[i as int] == parts@[i as int]@);
        }
        match checked_parse_size(parts[i]) {
            Some(Ok(v)) => sizes.push(v),
            Some(Err(e)) => return Some(Err(e)),
            None => return None,
        }
        i = i + 1;
    }
    Some(Ok(sizes))
}

/// A list that cannot be read up to some size cannot be read any further.
proof fn lemma_sizes_reading_stays(parts: Seq<Seq<char>>, n: nat, m: nat)
    requires
        n <= m,
    ensures
        !(sizes_reading(parts, n) is Value) ==> sizes_reading(parts, m) == sizes_reading(parts, n),
    decreases m,
{
    if n < m {
        lemma_sizes_reading_stays(parts, n, (m - 1) as nat);
    }
}

/// Reads a command line. `None` if a size on it does not fit in 64 bits.
pub fn checked_parse_args(args: &Vec<String>) -> (r: Option<Result<BenchConfig, String>>)
    ensures
        match r {
            Some(Ok(c)) => args_reading(arg_texts(args@)) == Reading::Value(c@),
            Some(Err(e)) => args_reading(arg_texts(args@)) == Reading::<ConfigView>::Error(e@),
            None => args_reading(arg_texts(args@)) == Reading::<ConfigView>::TooLarge,
        },
{
    let ghost all = arg_texts(args@);
    if args.len() < 2 {
        return Some(Err(String::from_str("Missing EIF path")));
    }
    let mut config = BenchConfig {
        eif_path: args[1].clone(),
        total_bytes: DEFAULT_TOTAL_BYTES,
        buffer_sizes: vec![DEFAULT_BUFFER_SIZE],
        reverse: true,
    };
    assert(config@.buffer_sizes =~= seq![DEFAULT_BUFFER_SIZE]);
    let mut i: usize = 2;
    while i < args.len()
        invariant
            all == arg_texts(args@),
            args@.len() >= 2,
            i <= args@.len(),
            args_reading(all) == options_reading(all, i as nat, config@),
        decreases args.len() - i,
    {
        let option: &str = args[i].as_str();
        assert(option@ == all[i as int]);
        if same_text(option, "--size") {
            i = i + 1;
            if i >= args.len() {
                return Some(Err(String::from_str("--size requires a value")));
            }
            assert(args@[i as int]@ == all[i as int]);
            match checked_parse_size(args[i].as_str()) {
                Some(Ok(v)) => {
                    config.total_bytes = v;
                },
                Some(Err(e)) => return Some(Err(e)),
                None => return None,
            }
        } else if same_text(option, "--buffer-sizes") {
            i = i + 1;
            if i >= args.len() {
                return Some(Err(String::from_str("--buffer-sizes requires a value")));
            }
            assert(args@[i as int]@ == all[i as int]);
            match parse_size_list(args[i].as_str()) {
                Some(Ok(v)) => {
                    config.buffer_sizes = v;
                },
                Some(Err(e)) => return Some(Err(e)),
                None => return None,
            }
        } else if same_text(option, "--no-reverse") {
            config.reverse = false;
        } else {
            let mut e = String::from_str("Unknown option: ");
            e.append(option);
            return Some(Err(e));
        }
        i = i + 1;
    }
    Some(Ok(config))
}

/// Reads a command line.
pub fn parse_args(args: &Vec<String>) -> (r: Result<BenchConfig, String>)
    requires
        !(args_reading(arg_texts(args@)) is TooLarge),
    ensures
        match r {
            Ok(c) => args_reading(arg_texts(args@)) == Reading::Value(c@),
            Err(e) => args_reading(arg_texts(args@)) == Reading::<ConfigView>::Error(e@),
        },
{
    match checked_parse_args(args) {
        Some(r) => r,
        None => vstd::pervasive::unreached(),
    }
}

/// A command line that names an image and nothing else asks for 1 GiB in pieces of
/// 64 KiB, there and back.
pub proof fn law_defaults(program: Seq<char>, image: Seq<char>)
    ensures
        args_reading(seq![program, image]) == Reading::Value(
            ConfigView {
                eif_path: image,
                total_bytes: GIB,
                buffer_sizes: seq![(64 * KIB) as u64],
                reverse: true,
            },
        ),
{
    assert(seq![DEFAULT_BUFFER_SIZE] =~= seq![(64 * KIB) as u64]);
}

/// The sizes of a list, for people, with commas between them.
pub open spec fn sizes_text(sizes: Seq<u64>) -> Seq<char>
    decreases sizes.len(),
{
    if sizes.len() == 0 {
        Seq::empty()
    } else if sizes.len() == 1 {
        bytes_text(sizes[0] as nat)
    } else {
        sizes_text(sizes.drop_last()) + ", "@ + bytes_text(sizes.last() as nat)
    }
}

/// The word for a truth value.
pub open spec fn bool_text(b: bool) -> Seq<char> {
    if b {
        "true"@
    } else {
        "false"@
    }
}

/// The line that announces a benchmark.
pub open spec fn summary_text(c: ConfigView) -> Seq<char> {
    "Total: "@ + bytes_text(c.total_bytes as nat) + ", Buffer sizes: "@ + sizes_text(c.buffer_sizes)
        + ", Reverse: "@ + bool_text(c.reverse)
}

fn join_sizes(sizes: &Vec<u64>) -> (r: String)
    ensures
        r@ == sizes_text(sizes@),
{
    let mut out = String::new();
    let mut i: usize = 0;
    assert(sizes@.take(0) =~= Seq::<u64>::empty());
    while i < sizes.len()
        invariant
            i <= sizes@.len(),
            out@ == sizes_text(sizes@.take(i as int)),
        decreases sizes.len() - i,
    {
        let ghost next = sizes@.take(i + 1);
        assert(next.drop_last() =~= sizes@.take(i as int));
        assert(next.last() == sizes@[i as int]);
        if i > 0 {
            out.append(", ");
        }
        out.append(format_bytes(sizes[i]).as_str());
        assert(out@ =~= sizes_text(next));
        i = i + 1;
    }
    assert(sizes@.take(i as int) =~= sizes@);
    out
}

impl BenchConfig {
    /// The line that announces the benchmark.
    pub fn summary(&self) -> (r: String)
        ensures
            r@ == summary_text(self@),
            r@ == "Total: "@ + bytes_text(self.total_bytes as nat) + ", Buffer sizes: "@
                + sizes_text(self.buffer_sizes@) + ", Reverse: "@ + if self.reverse {
                "true"@
            } else {
                "false"@
            },
    {
        let mut out = String::from_str("Total: ");
        out.append(format_bytes(self.total_bytes).as_str());
        out.append(", Buffer sizes: ");
        out.append(join_sizes(&self.buffer_sizes).as_str());
        out.append(", Reverse: ");
        out.append(
            if self.reverse {
                "true"
            } else {
                "false"
            },
        );
        out
    }
}

/// The line that announces round `index` of `rounds`.
pub open spec fn banner_text(index: nat, rounds: nat, buffer_size: nat) -> Seq<char> {
    "--- Round "@ + decimal(index + 1) + "/"@ + decimal(rounds) + ": buffer_size="@ + bytes_text(
        buffer_size,
    ) + " ---"@
}

/// The line that announces a round; none where there is only one.
pub fn round_banner(index: usize, rounds: usize, buffer_size: u64) -> (r: Option<String>)
    requires
        index < rounds,
    ensures
        match r {
            Some(t) => rounds > 1 && t@ == banner_text(
                index as nat,
                rounds as nat,
                buffer_size as nat,
            ) && t@ == "--- Round "@ + decimal((index + 1) as nat) + "/"@ + decimal(rounds as nat)
                + ": buffer_size="@ + bytes_text(buffer_size as nat) + " ---"@,
            None => rounds <= 1,
        },
{
    if rounds > 1 {
        let mut out = String::from_str("--- Round ");
        push_decimal(&mut out, (index + 1) as u64);
        out.append("/");
        push_decimal(&mut out, rounds as u64);
        out.append(": buffer_size=");
        out.append(format_bytes(buffer_size).as_str());
        out.append(" ---");
        Some(out)
    } else {
        None
    }
}

/// Without an image there is nothing to do; an image alone asks for 1073741824 bytes in
/// pieces of 65536, there and back.
pub proof fn law_image_comes_first(args: Seq<Seq<char>>)
    ensures
        args.len() < 2 ==> args_reading(args) == Reading::<ConfigView>::Error(
            "Missing EIF path"@,
        ),
        args.len() == 2 ==> args_reading(args) == Reading::Value(
            ConfigView {
                eif_path: args[1],
                total_bytes: 1073741824,
                buffer_sizes: seq![65536u64],
                reverse: true,
            },
        ),
{
}

/// Once the arguments up to some point are read, only what follows them matters.
proof fn lemma_options_go_on(
    args: Seq<Seq<char>>,
    more: Seq<Seq<char>>,
    i: nat,
    config: ConfigView,
)
    requires
        i <= args.len(),
    ensures
        match options_reading(args, i, config) {
            Reading::Value(c) => options_reading(args + more, i, config) == options_reading(
                args + more,
                args.len(),
                c,
            ),
            Reading::Error(e) => e != "--size requires a value"@ && e
                != "--buffer-sizes requires a value"@ ==> options_reading(args + more, i, config)
                == Reading::<ConfigView>::Error(e),
            Reading::TooLarge => options_reading(args + more, i, config)
                == Reading::<ConfigView>::TooLarge,
        },
    decreases args.len() - i,
{
    let all = args + more;
    if i < args.len() {
        assert(all[i as int] == args[i as int]);
        if args[i as int] == "--size"@ {
            if i + 1 < args.len() {
                assert(all[(i + 1) as int] == args[(i + 1) as int]);
                match size_reading(args[(i + 1) as int]) {
                    Reading::Value(v) => {
                        lemma_options_go_on(
                            args,
                            more,
                            i + 2,
                            ConfigView { total_bytes: v, ..config },
                        );
                    },
                    _ => {},
                }
            }
        } else if args[i as int] == "--buffer-sizes"@ {
            if i + 1 < args.len() {
                assert(all[(i + 1) as int] == args[(i + 1) as int]);
                match size_list_reading(args[(i + 1) as int]) {
                    Reading::Value(v) => {
                        lemma_options_go_on(
                            args,
                            more,
                            i + 2,
                            ConfigView { buffer_sizes: v, ..config },
                        );
                    },
                    _ => {},
                }
            }
        } else if args[i as int] == "--no-reverse"@ {
            lemma_options_go_on(args, more, i + 1, ConfigView { reverse: false, ..config });
        }
    }
}

/// What one more option does to a command line that can be read: it changes what it is
/// about and nothing else, whatever stood before it; without the value that it needs, or
/// if it is no option, it is an error.
pub proof fn law_one_more_option(args: Seq<Seq<char>>, c: ConfigView, s: Seq<char>)
    requires
        args_reading(args) == Reading::Value(c),
    ensures
        args_reading(args.push("--no-reverse"@)) == Reading::Value(
            ConfigView { reverse: false, ..c },
        ),
        args_reading(args.push("--size"@)) == Reading::<ConfigView>::Error(
            "--size requires a value"@,
        ),
        args_reading(args.push("--buffer-sizes"@)) == Reading::<ConfigView>::Error(
            "--buffer-sizes requires a value"@,
        ),
        args_reading(args.push("--size"@).push(s)) == match size_value(s) {
            None => Reading::Error("Invalid size: "@ + trimmed(s)),
            Some(v) => if v <= 0xFFFF_FFFF_FFFF_FFFF {
                Reading::Value(ConfigView { total_bytes: v as u64, ..c })
            } else {
                Reading::TooLarge
            },
        },
        args_reading(args.push("--buffer-sizes"@).push(s)) == match size_list_reading(s) {
            Reading::Value(v) => Reading::Value(ConfigView { buffer_sizes: v, ..c }),
            Reading::Error(e) => Reading::Error(e),
            Reading::TooLarge => Reading::TooLarge,
        },
        s != "--no-reverse"@ && s != "--size"@ && s != "--buffer-sizes"@ ==> args_reading(
            args.push(s),
        ) == Reading::<ConfigView>::Error("Unknown option: "@ + s),
{
    lemma_option_names();
    lemma_one_word_more(args, c, "--no-reverse"@);
    lemma_one_word_more(args, c, "--size"@);
    lemma_one_word_more(args, c, "--buffer-sizes"@);
    lemma_one_word_more(args, c, s);
    lemma_two_words_more(args, c, "--size"@, s);
    lemma_two_words_more(args, c, "--buffer-sizes"@, s);
}

proof fn lemma_option_names()
    ensures
        "--size"@ != "--no-reverse"@,
        "--size"@ != "--buffer-sizes"@,
        "--no-reverse"@ != "--buffer-sizes"@,
{
    reveal_strlit("--no-reverse");
    reveal_strlit("--size");
    reveal_strlit("--buffer-sizes");
    assert("--size"@.len() == 6 && "--no-reverse"@.len() == 12 && "--buffer-sizes"@.len() == 14);
}

proof fn lemma_one_word_more(args: Seq<Seq<char>>, c: ConfigView, s: Seq<char>)
    requires
        args_reading(args) == Reading::Value(c),
    ensures
        args_reading(args.push(s)) == options_reading(args.push(s), args.len(), c),
        s == "--no-reverse"@ ==> args_reading(args.push(s)) == Reading::Value(
            ConfigView { reverse: false, ..c },
        ),
        s == "--size"@ ==> args_reading(args.push(s)) == Reading::<ConfigView>::Error(
            "--size requires a value"@,
        ),
        s == "--buffer-sizes"@ ==> args_reading(args.push(s)) == Reading::<ConfigView>::Error(
            "--buffer-sizes requires a value"@,
        ),
        s != "--no-reverse"@ && s != "--size"@ && s != "--buffer-sizes"@ ==> args_reading(
            args.push(s),
        ) == Reading::<ConfigView>::Error("Unknown option: "@ + s),
{
    lemma_option_names();
    let all = args.push(s);
    lemma_options_go_on(args, seq![s], 2, default_config(args[1]));
    assert(args + seq![s] =~= all);
    let flagged = ConfigView { reverse: false, ..c };
    assert(options_reading(all, all.len(), flagged) == Reading::Value(flagged));
}

proof fn lemma_two_words_more(args: Seq<Seq<char>>, c: ConfigView, o: Seq<char>, s: Seq<char>)
    requires
        args_reading(args) == Reading::Value(c),
        o == "--size"@ || o == "--buffer-sizes"@,
    ensures
        o == "--size"@ ==> args_reading(args.push(o).push(s)) == match size_reading(s) {
            Reading::Value(v) => Reading::Value(ConfigView { total_bytes: v, ..c }),
            Reading::Error(e) => Reading::Error(e),
            Reading::TooLarge => Reading::TooLarge,
        },
        o == "--buffer-sizes"@ ==> args_reading(args.push(o).push(s)) == match size_list_reading(
            s,
        ) {
            Reading::Value(v) => Reading::Value(ConfigView { buffer_sizes: v, ..c }),
            Reading::Error(e) => Reading::Error(e),
            Reading::TooLarge => Reading::TooLarge,
        },
{
    lemma_option_names();
    let all = args.push(o).push(s);
    lemma_options_go_on(args, seq![o, s], 2, default_config(args[1]));
    assert(args + seq![o, s] =~= all);
    assert(all[args.len() as int] == o && all[(args.len() + 1) as int] == s);
    let n = args.len();
    if o == "--size"@ {
        match size_reading(s) {
            Reading::Value(v) => {
                let d = ConfigView { total_bytes: v, ..c };
                assert(options_reading(all, n + 2, d) == Reading::Value(d));
            },
            _ => {},
        }
    } else {
        match size_list_reading(s) {
            Reading::Value(v) => {
                let d = ConfigView { buffer_sizes: v, ..c };
                assert(options_reading(all, n + 2, d) == Reading::Value(d));
            },
            _ => {},
        }
    }
}

/// A command line that cannot be read is not mended by what is added to it, unless all
/// that it lacked was the value of its last option.
pub proof fn law_errors_are_not_mended(args: Seq<Seq<char>>, more: Seq<Seq<char>>)
    requires
        args.len() >= 2,
        !(args_reading(args) is Value),
        args_reading(args) != Reading::<ConfigView>::Error("--size requires a value"@),
        args_reading(args) != Reading::<ConfigView>::Error("--buffer-sizes requires a value"@),
    ensures
        args_reading(args + more) == args_reading(args),
{
    lemma_options_go_on(args, more, 2, default_config(args[1]));
}

/// A list of one size is that size. Two lists with a comma between them are the sizes of
/// the one, then those of the other; the first that cannot be read decides.
pub proof fn law_size_lists(a: Seq<char>, b: Seq<char>)
    ensures
        !a.contains(',') ==> size_list_reading(a) == match size_value(a) {
            None => Reading::Error("Invalid size: "@ + trimmed(a)),
            Some(v) => if v <= 0xFFFF_FFFF_FFFF_FFFF {
                Reading::Value(seq![v as u64])
            } else {
                Reading::TooLarge
            },
        },
        size_list_reading(a.push(',') + b) == match size_list_reading(a) {
            Reading::Value(x) => match size_list_reading(b) {
                Reading::Value(y) => Reading::Value(x + y),
                other => other,
            },
            other => other,
        },
{
    law_split(a, b, ',');
    let pa = split_parts(a, ',');
    let pb = split_parts(b, ',');
    lemma_sizes_of_both(pa, pb, pb.len());
    if !a.contains(',') {
        reveal_with_fuel(sizes_reading, 3);
        assert(pa =~= seq![a]);
        match size_value(a) {
            Some(v) => {
                assert(Seq::<u64>::empty().push(v as u64) =~= seq![v as u64]);
            },
            None => {},
        }
    }
}

proof fn lemma_sizes_of_both(pa: Seq<Seq<char>>, pb: Seq<Seq<char>>, k: nat)
    requires
        k <= pb.len(),
    ensures
        sizes_reading(pa + pb, pa.len() + k) == match sizes_reading(pa, pa.len()) {
            Reading::Value(x) => match sizes_reading(pb, k) {
                Reading::Value(y) => Reading::Value(x + y),
                other => other,
            },
            other => other,
        },
    decreases k,
{
    if k == 0 {
        lemma_sizes_of_prefix(pa, pb, pa.len());
        match sizes_reading(pa, pa.len()) {
            Reading::Value(x) => {
                assert(x + Seq::<u64>::empty() =~= x);
            },
            _ => {},
        }
    } else {
        lemma_sizes_of_both(pa, pb, (k - 1) as nat);
        assert((pa + pb)[pa.len() + k - 1] == pb[k - 1]);
        match (sizes_reading(pa, pa.len()), sizes_reading(pb, (k - 1) as nat)) {
            (Reading::Value(x), Reading::Value(y)) => {
                match size_reading(pb[k - 1]) {
                    Reading::Value(v) => {
                        assert((x + y).push(v) =~= x + y.push(v));
                    },
                    _ => {},
                }
            },
            _ => {},
        }
    }
}

proof fn lemma_sizes_of_prefix(pa: Seq<Seq<char>>, pb: Seq<Seq<char>>, k: nat)
    requires
        k <= pa.len(),
    ensures
        sizes_reading(pa + pb, k) == sizes_reading(pa, k),
    decreases k,
{
    if k > 0 {
        lemma_sizes_of_prefix(pa, pb, (k - 1) as nat);
        assert((pa + pb)[k - 1] == pa[k - 1]);
    }
}

/// Sizes are listed in order, each for people, with a comma and a space between two.
pub proof fn law_listed_sizes(sizes: Seq<u64>, last: u64)
    ensures
        sizes_text(Seq::empty()) == Seq::<char>::empty(),
        sizes_text(seq![last]) == bytes_text(last as nat),
        sizes.len() > 0 ==> sizes_text(sizes.push(last)) == sizes_text(sizes) + ", "@ + bytes_text(
            last as nat,
        ),
{
    assert(sizes.push(last).drop_last() =~= sizes);
}

/// Every argument is taken as it is.
pub proof fn law_arguments_are_taken_as_they_are(args: Seq<String>)
    ensures
        arg_texts(args).len() == args.len(),
        forall|i: int| 0 <= i < args.len() ==> #[trigger] arg_texts(args)[i] == args[i]@,
{
}

} // verus!
