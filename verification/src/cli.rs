//! The command line's plain logic: what it was asked to do, the files of a unit, and the text
//! of its reports.
use vstd::prelude::*;
use vstd::string::{StrSliceExecFns, StringExecFns};
use vstd::utf8::encode_utf8;

use crate::project::Project;

verus! {

/// What the command line was asked to do.
#[derive(Debug, Clone)]
pub struct Cli {
    /// Force color output instead of deferring.
    pub color: bool,
    /// Print the total time taken at the end.
    pub time: bool,
    /// Dump the compiled bytecode of each body.
    pub dump_bytes: bool,
    /// Dump the IR before code generation.
    pub dump_ir: bool,
    pub command: Option<Commands>,
}

/// The subcommands, each with its paths (as text) and options.
#[derive(Debug, Clone)]
pub enum Commands {
    Check { path: Option<String> },
    Run { path: Option<String>, script_args: Vec<String> },
    Build { path: Option<String> },
    Docs {
        output_path: Option<String>,
        manifest_path: Option<String>,
        include_std: bool,
        mdbook: Option<String>,
    },
}

/// The subcommand names.
pub open spec fn is_subcommand(s: Seq<char>) -> bool {
    s == "check"@ || s == "build"@ || s == "run"@ || s == "help"@ || s == "docs"@
}

/// The position of the first argument after the program name that doesn't start with `-`.
pub open spec fn first_positional(args: Seq<String>) -> Option<int> {
    if exists|i: int| 1 <= i < args.len() && !starts_dash(#[trigger] args[i]@) {
        Some(choose|i: int| 1 <= i < args.len() && !starts_dash(#[trigger] args[i]@) && forall|j: int|
            1 <= j < i ==> starts_dash(#[trigger] args[j]@))
    } else {
        None
    }
}

/// Whether text starts with `-`.
pub open spec fn starts_dash(s: Seq<char>) -> bool {
    s.len() > 0 && s[0] == '-'
}

/// The arguments with `run` put in front of the first positional one when that isn't a
/// subcommand: bare `mimas foo.mim` means `mimas run foo.mim`, and `mimas` alone still shows help.
pub open spec fn massaged(args: Seq<String>) -> Seq<Seq<char>> {
    let views = args.map_values(|a: String| a@);
    match first_positional(args) {
        Some(i) => if is_subcommand(args[i]@) {
            views
        } else {
            views.insert(i, "run"@)
        },
        None => views,
    }
}

/// Whether `s` starts with `-`.
fn dash_first(s: &String) -> (b: bool)
    ensures
        b == starts_dash(s@),
{
    let t = s.as_str();
    t.unicode_len() > 0 && t.get_char(0) == '-'
}

/// Whether `s` names a subcommand.
fn subcommand(s: &String) -> (b: bool)
    ensures
        b == is_subcommand(s@),
{
    *s == String::from_str("check") || *s == String::from_str("build") || *s == String::from_str("run")
        || *s == String::from_str("help") || *s == String::from_str("docs")
}

/// Puts `run` in front of the first positional argument (after the program name) when it isn't
/// a subcommand.
pub fn massage_args(args: Vec<String>) -> (out: Vec<String>)
    ensures
        out@.map_values(|a: String| a@) == massaged(args@),
{
    let ghost orig = args@;
    let mut out = args;
    let mut i: usize = 1;
    while i < out.len()
        invariant
            out@ == orig,
            orig == args@,
            1 <= i,
            i <= out@.len() || out@.len() == 0,
            forall|j: int| 1 <= j < i && j < out@.len() ==> starts_dash(#[trigger] out@[j]@),
        decreases out@.len() - i,
    {
        if !dash_first(&out[i]) {
            proof {
                assert(first_positional(orig) == Some(i as int)) by {
                    let k = choose|k: int| 1 <= k < orig.len() && !starts_dash(#[trigger] orig[k]@) && forall|j: int|
                        1 <= j < k ==> starts_dash(#[trigger] orig[j]@);
                    if k < i {
                        assert(starts_dash(orig[k]@));
                    } else if k > i {
                        assert(starts_dash(orig[i as int]@));
                    }
                }
            }
            let sub = subcommand(&out[i]);
            if !sub {
                let run = String::from_str("run");
                out.insert(i, run);
                assert(out@.map_values(|a: String| a@) =~= orig.map_values(|a: String| a@).insert(i as int, "run"@));
            } else {
                assert(out@.map_values(|a: String| a@) =~= orig.map_values(|a: String| a@));
            }
            return out;
        }
        i += 1;
    }
    proof {
        assert(first_positional(orig) is None) by {
            if exists|k: int| 1 <= k < orig.len() && !starts_dash(#[trigger] orig[k]@) {
                let k = choose|k: int| 1 <= k < orig.len() && !starts_dash(#[trigger] orig[k]@);
                assert(starts_dash(orig[k]@));
            }
        }
        assert(out@.map_values(|a: String| a@) =~= orig.map_values(|a: String| a@));
    }
    out
}

/// The decimal digits of `n`.
pub open spec fn decimal(n: nat) -> Seq<char>
    decreases n,
{
    let d = ((n % 10) + 48) as char;
    if n < 10 {
        seq![d]
    } else {
        decimal(n / 10).push(d)
    }
}

/// The one digit `d`.
fn digit_text(d: u64) -> (s: &'static str)
    requires
        d < 10,
    ensures
        s@ == seq![(d + 48) as char],
{
    match d {
        0 => {
            proof {
                reveal_strlit("0");
            }
            "0"
        },
        1 => {
            proof {
                reveal_strlit("1");
            }
            "1"
        },
        2 => {
            proof {
                reveal_strlit("2");
            }
            "2"
        },
        3 => {
            proof {
                reveal_strlit("3");
            }
            "3"
        },
        4 => {
            proof {
                reveal_strlit("4");
            }
            "4"
        },
        5 => {
            proof {
                reveal_strlit("5");
            }
            "5"
        },
        6 => {
            proof {
                reveal_strlit("6");
            }
            "6"
        },
        7 => {
            proof {
                reveal_strlit("7");
            }
            "7"
        },
        8 => {
            proof {
                reveal_strlit("8");
            }
            "8"
        },
        _ => {
            proof {
                reveal_strlit("9");
            }
            "9"
        },
    }
}

/// `n` in decimal digits.
pub(crate) fn decimal_text(n: u64) -> (s: String)
    ensures
        s@ == decimal(n as nat),
    decreases n,
{
    if n < 10 {
        String::from_str(digit_text(n))
    } else {
        let s = decimal_text(n / 10);
        s.concat(digit_text(n % 10))
    }
}

/// The number that decimal digits `s` stand for, reading them left to right.
pub open spec fn digits_value(s: Seq<char>) -> nat
    decreases s.len(),
{
    if s.len() == 0 {
        0
    } else {
        digits_value(s.drop_last()) * 10 + ((s.last() as nat) - 48) as nat
    }
}

/// Every character is a decimal digit.
pub open spec fn all_digits(s: Seq<char>) -> bool {
    forall|i: int| 0 <= i < s.len() ==> '0' <= #[trigger] s[i] <= '9'
}

/// Writing a number in decimal and reading the digits back gives the number: the text is one
/// or more digits, with no leading zero unless the number is zero.
pub proof fn lemma_decimal_reads_back(n: nat)
    ensures
        digits_value(decimal(n)) == n,
        all_digits(decimal(n)),
        decimal(n).len() >= 1,
        decimal(n)[0] == '0' ==> n == 0,
    decreases n,
{
    let d = ((n % 10) + 48) as char;
    assert(n % 10 < 10);
    assert((d as nat) == (n % 10) + 48);
    assert(decimal(n).last() == d);
    assert(decimal(n).len() > 0);
    assert(digits_value(decimal(n)) == digits_value(decimal(n).drop_last()) * 10 + (((d as nat) - 48) as nat));
    assert((((d as nat) - 48) as nat) == n % 10);
    if n >= 10 {
        lemma_decimal_reads_back(n / 10);
        assert(decimal(n).drop_last() =~= decimal(n / 10));
        assert(n == (n / 10) * 10 + n % 10) by (nonlinear_arith);
        assert(decimal(n)[0] == decimal(n / 10)[0]);
    } else {
        assert(decimal(n).drop_last() =~= Seq::<char>::empty());
        assert(digits_value(Seq::<char>::empty()) == 0);
    }
}

/// Text with its commas taken out.
pub open spec fn without_commas(s: Seq<char>) -> Seq<char> {
    s.filter(|c: char| c != ',')
}

proof fn lemma_without_commas_add(a: Seq<char>, b: Seq<char>)
    ensures
        without_commas(a + b) == without_commas(a) + without_commas(b),
{
    Seq::filter_distributes_over_add(a, b, |c: char| c != ',');
}

proof fn lemma_digits_no_commas(n: nat)
    ensures
        without_commas(decimal(n)) == decimal(n),
{
    lemma_decimal_reads_back(n);
    let s = decimal(n);
    assert(s.filter(|c: char| c != ',') =~= s) by {
        reveal(Seq::filter);
        lemma_filter_keeps_digits(s);
    }
}

proof fn lemma_filter_keeps_digits(s: Seq<char>)
    requires
        all_digits(s),
    ensures
        s.filter(|c: char| c != ',') == s,
    decreases s.len(),
{
    reveal(Seq::filter);
    if s.len() > 0 {
        assert(all_digits(s.drop_last()));
        lemma_filter_keeps_digits(s.drop_last());
        assert(s.drop_last().push(s.last()) =~= s);
    }
}

/// The digits of `n` are those of `n / 1000` followed by its last three digits.
proof fn lemma_decimal_split(n: nat)
    requires
        n >= 1000,
    ensures
        decimal(n) == decimal(n / 1000) + decimal((n % 1000) / 100) + decimal((n % 100) / 10) + decimal(n % 10),
{
    assert(n / 10 >= 100) by (nonlinear_arith) requires n >= 1000;
    assert(n / 100 >= 10) by (nonlinear_arith) requires n >= 1000;
    assert((n / 10) / 10 == n / 100) by (nonlinear_arith);
    assert((n / 100) / 10 == n / 1000) by (nonlinear_arith);
    assert((n / 10) % 10 == (n % 100) / 10) by (nonlinear_arith);
    assert((n / 100) % 10 == (n % 1000) / 100) by (nonlinear_arith);
    assert(n % 10 < 10 && (n % 100) / 10 < 10 && (n % 1000) / 100 < 10) by (nonlinear_arith);
    assert(decimal(n) == decimal(n / 10).push(((n % 10) + 48) as char));
    assert(decimal(n / 10) == decimal(n / 100).push((((n / 10) % 10) + 48) as char));
    assert(decimal(n / 100) == decimal(n / 1000).push((((n / 100) % 10) + 48) as char));
    assert(decimal(n) =~= decimal(n / 1000) + decimal((n % 1000) / 100) + decimal((n % 100) / 10) + decimal(n % 10));
}

/// Taking the commas out of a grouped count gives its plain decimal digits, so the count reads
/// back whole.
pub proof fn lemma_grouped_reads_back(n: nat)
    ensures
        without_commas(grouped(n)) == decimal(n),
        digits_value(without_commas(grouped(n))) == n,
    decreases n,
{
    lemma_decimal_reads_back(n);
    if n < 1000 {
        lemma_digits_no_commas(n);
    } else {
        lemma_grouped_reads_back(n / 1000);
        let a = grouped(n / 1000);
        let b = decimal((n % 1000) / 100);
        let c = decimal((n % 100) / 10);
        let d = decimal(n % 10);
        lemma_without_commas_add(a + seq![','] + b + c, d);
        lemma_without_commas_add(a + seq![','] + b, c);
        lemma_without_commas_add(a + seq![','], b);
        lemma_without_commas_add(a, seq![',']);
        assert(without_commas(seq![',']) =~= Seq::<char>::empty()) by {
            reveal(Seq::filter);
            let one = seq![','];
            assert(one.drop_last() =~= Seq::<char>::empty());
            assert(Seq::<char>::empty().filter(|c: char| c != ',') =~= Seq::<char>::empty());
            assert(one.last() == ',');
            assert(one.filter(|c: char| c != ',') == one.drop_last().filter(|c: char| c != ','));
        }
        lemma_digits_no_commas((n % 1000) / 100);
        lemma_digits_no_commas((n % 100) / 10);
        lemma_digits_no_commas(n % 10);
        lemma_decimal_split(n);
        assert(without_commas(grouped(n)) =~= decimal(n));
    }
}

/// The decimal digits of `n` in groups of three, split by commas: `1,234,567`.
pub open spec fn grouped(n: nat) -> Seq<char>
    decreases n,
{
    if n < 1000 {
        decimal(n)
    } else {
        grouped(n / 1000) + seq![','] + decimal((n % 1000) / 100) + decimal((n % 100) / 10) + decimal(n % 10)
    }
}

/// A count written the way English writes it, with commas between groups of three digits.
pub fn grouped_text(n: u64) -> (s: String)
    ensures
        s@ == grouped(n as nat),
    decreases n,
{
    if n < 1000 {
        decimal_text(n)
    } else {
        let head = grouped_text(n / 1000);
        proof {
            reveal_strlit(",");
        }
        let s = head.concat(",");
        let s = s.concat(decimal_text((n % 1000) / 100).as_str());
        let s = s.concat(decimal_text((n % 100) / 10).as_str());
        let s = s.concat(decimal_text(n % 10).as_str());
        assert(s@ =~= grouped(n as nat));
        s
    }
}

/// The text of a duration of `micros` microseconds below a second.
pub open spec fn duration_text(micros: nat) -> Option<Seq<char>> {
    if micros < 1000 {
        Some(decimal(micros) + "µs"@)
    } else if micros < 1_000_000 {
        Some(decimal(micros / 1000) + "ms"@)
    } else {
        None
    }
}

/// A short text for a duration of `micros` microseconds: in microseconds below a millisecond,
/// in milliseconds below a second. `None` for a second or more, which is shown in seconds with two
/// decimals.
pub fn format_duration(micros: u64) -> (s: Option<String>)
    ensures
        match s {
            Some(t) => duration_text(micros as nat) == Some(t@),
            None => duration_text(micros as nat) is None,
        },
{
    if micros < 1000 {
        Some(decimal_text(micros).concat("µs"))
    } else if micros < 1_000_000 {
        Some(decimal_text(micros / 1000).concat("ms"))
    } else {
        None
    }
}

/// How many lines text has: a line starts at the first byte and after each `\n` that is not
/// the last byte (a last line may end in `\n` or not).
pub open spec fn line_count(s: Seq<u8>) -> nat
    decreases s.len(),
{
    if s.len() == 0 {
        0
    } else {
        let rest = line_count(s.drop_last());
        if s.len() == 1 || s[s.len() - 2] == 10 {
            rest + 1
        } else {
            rest
        }
    }
}

/// The number of lines of `s`.
pub fn lines_of(s: &str) -> (n: usize)
    ensures
        n == line_count(encode_utf8(s@)),
{
    let b = s.as_bytes();
    let mut n: usize = 0;
    let mut i: usize = 0;
    while i < b.len()
        invariant
            i <= b@.len(),
            b@ == encode_utf8(s@),
            n == line_count(b@.take(i as int)),
            n <= i,
        decreases b@.len() - i,
    {
        proof {
            assert(b@.take(i + 1).drop_last() =~= b@.take(i as int));
            assert(b@.take(i + 1).last() == b@[i as int]);
        }
        if i == 0 || b[i - 1] == 10 {
            n += 1;
        }
        i += 1;
    }
    assert(b@.take(i as int) =~= b@);
    n
}

/// The files of the project a path names: the file it names (if it names one), the project,
/// each file's path and source, and what couldn't be read.
#[derive(Debug)]
pub struct Unit {
    pub file: Option<String>,
    pub project: Project,
    pub files: Vec<(String, String)>,
    pub io_errors: Vec<String>,
}

/// The total line count of sources.
pub open spec fn total_lines(files: Seq<(String, String)>) -> nat
    decreases files.len(),
{
    if files.len() == 0 {
        0
    } else {
        total_lines(files.drop_last()) + line_count(encode_utf8(files.last().1@))
    }
}

/// Paths `a` and `b` are equal as `std::path::Path`s: the same components (so `a//b` and `a/b`
/// are one path; what a component is depends on the platform).
pub uninterp spec fn same_path(a: Seq<char>, b: Seq<char>) -> bool;

/// Whether two paths are equal as `std::path::Path`s, with `Path`'s `==`.
#[verifier::external_body]
fn paths_equal(a: &str, b: &str) -> (r: bool)
    ensures
        r == same_path(a@, b@),
{
    std::path::Path::new(a) == std::path::Path::new(b)
}

/// The paths a unit reads: with a file, that file first, taken as given whatever its extension,
/// in place of its walked twin, then the other walked paths in order; without one, the walked
/// paths.
pub open spec fn unit_paths_spec(walked: Seq<String>, file: Option<String>) -> Seq<Seq<char>> {
    match file {
        Some(f) => seq![f@] + walked.filter(|p: String| !same_path(p@, f@)).map_values(|p: String| p@),
        None => walked.map_values(|p: String| p@),
    }
}

/// The paths a unit reads (see [`unit_paths_spec`]).
pub fn unit_paths(walked: &Vec<String>, file: &Option<String>) -> (v: Vec<String>)
    ensures
        v@.map_values(|p: String| p@) == unit_paths_spec(walked@, *file),
{
    let mut v: Vec<String> = Vec::new();
    let ghost keep = |p: String| match *file {
        Some(f) => !same_path(p@, f@),
        None => true,
    };
    if let Some(f) = file {
        v.push(f.clone());
    }
    let ghost start = v@;
    let mut i: usize = 0;
    while i < walked.len()
        invariant
            i <= walked@.len(),
            keep == (|p: String| match *file {
                Some(f) => !same_path(p@, f@),
                None => true,
            }),
            start == match *file {
                Some(f) => seq![f],
                None => Seq::<String>::empty(),
            },
            v@ == start + walked@.take(i as int).filter(keep),
        decreases walked@.len() - i,
    {
        proof {
            reveal(Seq::filter);
            assert(walked@.take(i + 1).drop_last() =~= walked@.take(i as int));
            assert(walked@.take(i + 1).last() == walked@[i as int]);
        }
        let take = match file {
            Some(f) => !paths_equal(walked[i].as_str(), f.as_str()),
            None => true,
        };
        if take {
            v.push(walked[i].clone());
            assert(v@ =~= start + walked@.take(i + 1).filter(keep));
        } else {
            assert(v@ =~= start + walked@.take(i + 1).filter(keep));
        }
        i += 1;
    }
    proof {
        assert(walked@.take(i as int) =~= walked@);
        match file {
            Some(f) => {
                assert(keep =~= (|p: String| !same_path(p@, f@)));
                assert(v@.map_values(|p: String| p@) =~= seq![f@] + walked@.filter(keep).map_values(|p: String| p@));
            },
            None => {
                assert(walked@.filter(keep) =~= walked@) by {
                    reveal(Seq::filter);
                    lemma_filter_all(walked@, keep);
                }
            },
        }
    }
    v
}

/// A filter that keeps everything keeps the whole sequence.
proof fn lemma_filter_all<A>(s: Seq<A>, pred: spec_fn(A) -> bool)
    requires
        forall|x: A| #[trigger] pred(x),
    ensures
        s.filter(pred) == s,
    decreases s.len(),
{
    reveal(Seq::filter);
    if s.len() > 0 {
        lemma_filter_all(s.drop_last(), pred);
        assert(s.drop_last().push(s.last()) =~= s);
    }
}

/// The scripts among `scripts` that the unit names: all of them, or only its file.
pub open spec fn named_scripts(file: Option<String>, scripts: Seq<(String, String)>) -> Seq<(String, String)> {
    scripts.filter(|s: (String, String)| file is None || same_path(file->0@, s.0@))
}

impl Unit {
    /// The scripts the path names, in order: the file itself, or every one in the directory.
    pub fn scripts(&self, scripts: &Vec<(String, String)>) -> (v: Vec<(String, String)>)
        ensures
            v@ == named_scripts(self.file, scripts@),
    {
        let ghost pred = |s: (String, String)| self.file is None || same_path(self.file->0@, s.0@);
        let mut v: Vec<(String, String)> = Vec::new();
        let mut i: usize = 0;
        while i < scripts.len()
            invariant
                i <= scripts@.len(),
                pred == (|s: (String, String)| self.file is None || same_path(self.file->0@, s.0@)),
                v@ == scripts@.take(i as int).filter(pred),
            decreases scripts@.len() - i,
        {
            proof {
                reveal(Seq::filter);
                assert(scripts@.take(i + 1).drop_last() =~= scripts@.take(i as int));
                assert(scripts@.take(i + 1).last() == scripts@[i as int]);
            }
            let keep = match &self.file {
                None => true,
                Some(f) => paths_equal(f.as_str(), scripts[i].0.as_str()),
            };
            if keep {
                v.push((scripts[i].0.clone(), scripts[i].1.clone()));
            }
            i += 1;
        }
        assert(scripts@.take(i as int) =~= scripts@);
        v
    }

    /// The total number of lines of the unit's files.
    pub fn lines(&self) -> (n: usize)
        requires
            total_lines(self.files@) <= usize::MAX,
        ensures
            n == total_lines(self.files@),
    {
        let mut n: usize = 0;
        let mut i: usize = 0;
        while i < self.files.len()
            invariant
                i <= self.files@.len(),
                total_lines(self.files@) <= usize::MAX,
                n == total_lines(self.files@.take(i as int)),
            decreases self.files@.len() - i,
        {
            proof {
                assert(self.files@.take(i + 1).drop_last() =~= self.files@.take(i as int));
                lemma_total_lines_prefix(self.files@, i + 1);
            }
            let k = lines_of(self.files[i].1.as_str());
            n = n + k;
            i += 1;
        }
        assert(self.files@.take(i as int) =~= self.files@);
        n
    }
}

/// The lines of the first `i` files are no more than the lines of all of them.
proof fn lemma_total_lines_prefix(files: Seq<(String, String)>, i: int)
    requires
        0 <= i <= files.len(),
    ensures
        total_lines(files.take(i)) <= total_lines(files),
    decreases files.len() - i,
{
    if i < files.len() {
        lemma_total_lines_prefix(files, i + 1);
        assert(files.take(i + 1).drop_last() =~= files.take(i));
    } else {
        assert(files.take(i) =~= files);
    }
}

} // verus!
