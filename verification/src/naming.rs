//! Output file naming: `{prefix}_{NNN}.mp3` with a 1-based, zero-padded
//! three-digit chunk index, joined to the output directory.
use vstd::prelude::*;
use vstd::string::StringExecFns;

verus! {

/// The character for one decimal digit.
pub open spec fn spec_digit_char(d: int) -> char {
    if d == 0 {
        '0'
    } else if d == 1 {
        '1'
    } else if d == 2 {
        '2'
    } else if d == 3 {
        '3'
    } else if d == 4 {
        '4'
    } else if d == 5 {
        '5'
    } else if d == 6 {
        '6'
    } else if d == 7 {
        '7'
    } else if d == 8 {
        '8'
    } else {
        '9'
    }
}

/// The decimal digits of `n`, most significant first.
pub open spec fn spec_decimal(n: int) -> Seq<char>
    recommends
        n >= 0,
    decreases n,
{
    if n < 10 {
        seq![spec_digit_char(n)]
    } else {
        spec_decimal(n / 10).push(spec_digit_char(n % 10))
    }
}

/// The chunk index padded with zeros to at least three digits, as the
/// `{:03}` format convention renders it.
pub open spec fn spec_padded_index(i: int) -> Seq<char> {
    if i >= 100 {
        spec_decimal(i)
    } else if i >= 10 {
        "0"@ + spec_decimal(i)
    } else {
        "00"@ + spec_decimal(i)
    }
}

/// The file name of chunk `i` (1-based) under a prefix.
pub open spec fn spec_file_name(prefix: Seq<char>, i: int) -> Seq<char> {
    prefix + "_"@ + spec_padded_index(i) + ".mp3"@
}

/// The full output path: directory, separator, file name.
pub open spec fn spec_output_path(dir: Seq<char>, prefix: Seq<char>, i: int) -> Seq<char> {
    dir + "/"@ + spec_file_name(prefix, i)
}

/// The one-character string for a decimal digit.
fn digit_str(d: u64) -> (s: &'static str)
    requires
        d < 10,
    ensures
        s@ =~= seq![spec_digit_char(d as int)],
{
    proof {
        reveal_strlit("0");
        reveal_strlit("1");
        reveal_strlit("2");
        reveal_strlit("3");
        reveal_strlit("4");
        reveal_strlit("5");
        reveal_strlit("6");
        reveal_strlit("7");
        reveal_strlit("8");
        reveal_strlit("9");
    }
    if d == 0 {
        "0"
    } else if d == 1 {
        "1"
    } else if d == 2 {
        "2"
    } else if d == 3 {
        "3"
    } else if d == 4 {
        "4"
    } else if d == 5 {
        "5"
    } else if d == 6 {
        "6"
    } else if d == 7 {
        "7"
    } else if d == 8 {
        "8"
    } else {
        "9"
    }
}

/// Render a number in decimal.
pub fn u64_to_string(n: u64) -> (s: String)
    ensures
        s@ == spec_decimal(n as int),
    decreases n,
{
    if n < 10 {
        let d = digit_str(n);
        String::from_str(d)
    } else {
        let mut s = u64_to_string(n / 10);
        let d = digit_str(n % 10);
        s.append(d);
        proof {
            assert(spec_decimal((n / 10) as int) + seq![spec_digit_char((n % 10) as int)]
                =~= spec_decimal((n / 10) as int).push(spec_digit_char((n % 10) as int)));
        }
        s
    }
}

/// Build the file name of chunk `index` (1-based) under a prefix:
/// the prefix, an underscore, the zero-padded index, and the extension.
pub fn output_file_name(prefix: &str, index: usize) -> (name: String)
    ensures
        name@ == spec_file_name(prefix@, index as int),
{
    let mut name = String::from_str(prefix);
    name.append("_");
    if index < 10 {
        name.append("00");
    } else if index < 100 {
        name.append("0");
    }
    let digits = u64_to_string(index as u64);
    name.append(digits.as_str());
    name.append(".mp3");
    proof {
        assert(name@ =~= spec_file_name(prefix@, index as int));
    }
    name
}

/// Build the full output path of chunk `index` (1-based): the output
/// directory, a path separator, and the chunk's file name.
pub fn output_path(dir: &str, prefix: &str, index: usize) -> (path: String)
    ensures
        path@ == spec_output_path(dir@, prefix@, index as int),
{
    let mut path = String::from_str(dir);
    path.append("/");
    let name = output_file_name(prefix, index);
    path.append(name.as_str());
    proof {
        assert(path@ =~= spec_output_path(dir@, prefix@, index as int));
    }
    path
}

} // verus!
