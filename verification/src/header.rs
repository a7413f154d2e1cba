//! The header-line parser: splits one received HTTP-like message into a
//! status line and a sequence of `name: value` pairs.
//!
//! The status line must carry a 200 status code for the pairs to be produced;
//! a malformed status line or a non-200 code aborts interpretation of that
//! message with a typed error. Lines without a colon are dropped, not
//! reported: the grammar is permissive about stray lines.

use crate::error::Error;
use crate::error::ErrorV;
use crate::text::find_char;
use crate::text::find_char_str;
use crate::text::has_prefix;
use crate::text::has_prefix_str;
use crate::text::is_digit;
use crate::text::lemma_find_char;
use crate::text::lemma_split_len;
use crate::text::parse_u32_str;
use crate::text::spec_parse_u32;
use crate::text::spec_split;
use crate::text::split_str;
use crate::text::trim_spec;
use crate::text::trim_str;
use vstd::prelude::*;
use vstd::string::StrSliceExecFns;
use vstd::string::StringExecFns;

verus! {

/// The lines of a message: the text split on CRLF.
pub open spec fn spec_lines(s: Seq<char>) -> Seq<Seq<char>> {
    spec_split(s, seq!['\r', '\n'])
}

/// `s` with every leading repetition of `p` removed, as
/// `str::trim_start_matches` does.
pub open spec fn strip_all_prefix(s: Seq<char>, p: Seq<char>) -> Seq<char>
    decreases s.len(),
{
    if p.len() > 0 && has_prefix(s, p) && s.len() > 0 {
        strip_all_prefix(s.skip(p.len() as int), p)
    } else {
        s
    }
}

/// The run of ASCII digits at the front of `s`.
pub open spec fn digit_run(s: Seq<char>) -> Seq<char>
    decreases s.len(),
{
    if s.len() > 0 && is_digit(s[0]) {
        seq![s[0]] + digit_run(s.drop_first())
    } else {
        Seq::<char>::empty()
    }
}

/// The status code of a status line: the run of leading digits after the
/// protocol prefix, read as a decimal `u32`; `None` when that run is empty or
/// its value does not fit.
pub open spec fn spec_status_code(line: Seq<char>) -> Option<u32> {
    spec_parse_u32(digit_run(strip_all_prefix(line, "HTTP/1.1 "@)))
}

/// The zero or one header pairs a single line contributes: the text before
/// the first colon names the header, the text after it, whitespace-trimmed,
/// is the value; a line without a colon contributes nothing.
pub open spec fn spec_line_pair(line: Seq<char>) -> Seq<(Seq<char>, Seq<char>)> {
    match find_char(line, ':') {
        Some(i) => seq![(line.take(i), trim_spec(line.skip(i + 1)))],
        None => Seq::<(Seq<char>, Seq<char>)>::empty(),
    }
}

/// The header pairs of a sequence of lines, in order.
pub open spec fn spec_header_pairs(lines: Seq<Seq<char>>) -> Seq<(Seq<char>, Seq<char>)>
    decreases lines.len(),
{
    if lines.len() == 0 {
        Seq::<(Seq<char>, Seq<char>)>::empty()
    } else {
        spec_header_pairs(lines.drop_last()) + spec_line_pair(lines.last())
    }
}

/// What the header parser yields for one full message: the header pairs of
/// every line after the status line, or the error that aborts the message.
pub open spec fn spec_parse_headers(s: Seq<char>) -> Result<Seq<(Seq<char>, Seq<char>)>, ErrorV> {
    if s.len() == 0 {
        Err(ErrorV::InvalidHTTP("http response is empty"@))
    } else {
        match spec_status_code(spec_lines(s)[0]) {
            None => Err(ErrorV::InvalidHTTP("status code is not a number"@)),
            Some(code) => if code != 200 {
                Err(ErrorV::HTTPError(code))
            } else {
                Ok(spec_header_pairs(spec_lines(s).skip(1)))
            },
        }
    }
}

/// `s` with every leading repetition of `p` removed.
fn strip_all_prefix_exec(s: &str, p: &str) -> (r: String)
    requires
        p@.len() >= 1,
    ensures
        r@ == strip_all_prefix(s@, p@),
{
    let mut cur = String::from_str(s);
    let m = p.unicode_len();
    loop
        invariant
            m == p@.len(),
            m >= 1,
            strip_all_prefix(s@, p@) == strip_all_prefix(cur@, p@),
        ensures
            cur@ == strip_all_prefix(s@, p@),
        decreases cur@.len(),
    {
        if has_prefix_str(cur.as_str(), p) {
            let n = cur.as_str().unicode_len();
            let next = String::from_str(cur.as_str().substring_char(m, n));
            proof {
                assert(next@ =~= cur@.skip(m as int));
            }
            cur = next;
        } else {
            break ;
        }
    }
    cur
}

/// The digit run is the longest all-digit prefix.
proof fn lemma_digit_run_take(s: Seq<char>, k: int)
    requires
        0 <= k <= s.len(),
        forall|j: int| 0 <= j < k ==> is_digit(s[j]),
        k < s.len() ==> !is_digit(s[k]),
    ensures
        digit_run(s) == s.take(k),
    decreases k,
{
    if k == 0 {
        assert(s.take(0) =~= Seq::<char>::empty());
    } else {
        assert(is_digit(s[0]));
        assert(forall|j: int| 0 <= j < k - 1 ==> s.drop_first()[j] == s[j + 1]);
        assert(k - 1 < s.drop_first().len() ==> !is_digit(s.drop_first()[k - 1]));
        lemma_digit_run_take(s.drop_first(), k - 1);
        assert(seq![s[0]] + s.drop_first().take(k - 1) =~= s.take(k));
    }
}

/// Whether `c` is an ASCII digit.
fn is_digit_exec(c: char) -> (r: bool)
    ensures
        r == is_digit(c),
{
    let u = c as u32;
    48 <= u && u <= 57
}

/// The run of ASCII digits at the front of `s`.
fn digit_run_exec(s: &str) -> (r: String)
    ensures
        r@ == digit_run(s@),
{
    let n = s.unicode_len();
    let mut i: usize = 0;
    while i < n && is_digit_exec(s.get_char(i))
        invariant
            i <= n,
            n == s@.len(),
            forall|j: int| 0 <= j < i ==> is_digit(s@[j]),
        decreases n - i,
    {
        i += 1;
    }
    proof {
        lemma_digit_run_take(s@, i as int);
    }
    let run = s.substring_char(0, i);
    proof {
        assert(run@ =~= s@.take(i as int));
    }
    String::from_str(run)
}

/// Splits one received message into its header pairs: the first line must be
/// a status line carrying the code 200; every later line with a colon
/// contributes one case-preserved `(name, value)` pair, its value trimmed of
/// surrounding whitespace; lines without a colon are dropped.
pub fn parse_headers(response: &str) -> (r: Result<Vec<(String, String)>, Error>)
    ensures
        match r {
            Ok(pairs) => spec_parse_headers(response@) == Ok::<
                Seq<(Seq<char>, Seq<char>)>,
                ErrorV,
            >(pairs.deep_view()),
            Err(e) => spec_parse_headers(response@) == Err::<Seq<(Seq<char>, Seq<char>)>, ErrorV>(
                e@,
            ),
        },
{
    if response.unicode_len() == 0 {
        return Err(Error::InvalidHTTP(String::from_str("http response is empty")));
    }
    proof {
        reveal_strlit("\r\n");
        assert("\r\n"@ =~= seq!['\r', '\n']);
        reveal_strlit("HTTP/1.1 ");
    }
    let lines = split_str(response, "\r\n");
    let ghost lns = spec_lines(response@);
    proof {
        lemma_split_len(response@, seq!['\r', '\n']);
        assert(lines.deep_view() == lns);
        assert(lines@[0]@ == lns[0]);
    }
    let stripped = strip_all_prefix_exec(lines[0].as_str(), "HTTP/1.1 ");
    let run = digit_run_exec(stripped.as_str());
    let code = match parse_u32_str(run.as_str()) {
        Some(c) => c,
        None => {
            return Err(Error::InvalidHTTP(String::from_str("status code is not a number")));
        },
    };
    if code != 200 {
        return Err(Error::HTTPError(code));
    }
    let mut pairs: Vec<(String, String)> = Vec::new();
    let mut i: usize = 1;
    proof {
        assert(lns.skip(1).take(0) =~= Seq::<Seq<char>>::empty());
        assert(pairs.deep_view() =~= Seq::<(Seq<char>, Seq<char>)>::empty());
    }
    while i < lines.len()
        invariant
            1 <= i <= lines.len(),
            lines.deep_view() == lns,
            pairs.deep_view() == spec_header_pairs(lns.skip(1).take(i - 1)),
        decreases lines.len() - i,
    {
        let ghost opairs = pairs.deep_view();
        let line = lines[i].as_str();
        proof {
            assert(line@ == lns[i as int]);
            assert(lns.skip(1)[i - 1] == lns[i as int]);
        }
        match find_char_str(line, ':') {
            Some(j) => {
                proof {
                    lemma_find_char(line@, ':');
                }
                let n = line.unicode_len();
                let name = String::from_str(line.substring_char(0, j));
                let value = trim_str(line.substring_char(j + 1, n));
                proof {
                    assert(name@ =~= line@.take(j as int));
                    assert(line@.subrange(j + 1, n as int) =~= line@.skip(j + 1));
                    assert(value@ == trim_spec(line@.skip(j + 1)));
                }
                pairs.push((name, value));
                proof {
                    assert(spec_line_pair(line@) == seq![
                        (line@.take(j as int), trim_spec(line@.skip(j + 1))),
                    ]);
                    assert(pairs.deep_view() =~= opairs + spec_line_pair(line@));
                }
            },
            None => {
                proof {
                    assert(spec_line_pair(line@) =~= Seq::<(Seq<char>, Seq<char>)>::empty());
                    assert(pairs.deep_view() =~= opairs + spec_line_pair(line@));
                }
            },
        }
        proof {
            assert(lns.skip(1).take(i - 1 + 1).drop_last() =~= lns.skip(1).take(i - 1));
            assert(lns.skip(1).take(i - 1 + 1).last() == lns.skip(1)[i - 1]);
            assert(spec_header_pairs(lns.skip(1).take(i - 1 + 1)) == spec_header_pairs(
                lns.skip(1).take(i - 1),
            ) + spec_line_pair(line@));
        }
        i += 1;
    }
    proof {
        assert(lns.skip(1).take(lines.deep_view().len() - 1) =~= lns.skip(1));
    }
    Ok(pairs)
}

} // verus!
