use vstd::prelude::*;
use vstd::string::{StringExecFns, StrSliceExecFns};
use crate::text::{all_digits, digits_val, lemma_digits_val_monotone, str_eq};

verus! {

/// Whether `c` separates tokens of a command line.
pub open spec fn is_space(c: char) -> bool {
    c == ' ' || c == '\t' || c == '\r' || c == '\n'
}

/// The length of the token at the head of `s`: the run of characters
/// before the first separator.
pub open spec fn token_len(s: Seq<char>) -> int
    decreases s.len(),
{
    if s.len() == 0 {
        0
    } else if is_space(s[0]) {
        0
    } else {
        1 + token_len(s.skip(1))
    }
}

/// The head token is never longer than the text.
pub proof fn lemma_token_len_range(s: Seq<char>)
    ensures
        0 <= token_len(s) <= s.len(),
    decreases s.len(),
{
    if s.len() > 0 && !is_space(s[0]) {
        lemma_token_len_range(s.skip(1));
    }
}

/// `token_len` is the position of the first separator.
pub proof fn lemma_token_len_at(s: Seq<char>, t: int)
    requires
        0 <= t <= s.len(),
        forall|k: int| 0 <= k < t ==> !is_space(#[trigger] s[k]),
        t == s.len() || is_space(s[t]),
    ensures
        token_len(s) == t,
    decreases t,
{
    if t > 0 {
        lemma_token_len_at(s.skip(1), t - 1);
    }
}

/// The whitespace-separated tokens of a command line, in order.
pub open spec fn tokens_of(s: Seq<char>) -> Seq<Seq<char>>
    decreases s.len(),
    via tokens_of_decreases
{
    if s.len() == 0 {
        seq![]
    } else if is_space(s[0]) {
        tokens_of(s.skip(1))
    } else {
        seq![s.take(token_len(s))] + tokens_of(s.skip(token_len(s)))
    }
}

#[via_fn]
proof fn tokens_of_decreases(s: Seq<char>) {
    if s.len() > 0 && !is_space(s[0]) {
        lemma_token_len_range(s);
        lemma_token_len_range(s.skip(1));
    }
}

/// Leading separators do not change the tokens.
proof fn lemma_tokens_skip_spaces(s: Seq<char>, i: int)
    requires
        0 <= i <= s.len(),
        forall|k: int| 0 <= k < i ==> is_space(#[trigger] s[k]),
    ensures
        tokens_of(s) == tokens_of(s.skip(i)),
    decreases i,
{
    if i > 0 {
        assert(is_space(s[0]));
        lemma_tokens_skip_spaces(s.skip(1), i - 1);
        assert(s.skip(1).skip(i - 1) =~= s.skip(i));
    } else {
        assert(s.skip(0) =~= s);
    }
}

/// The tokens joined by commas; how an argument list reads in an
/// error message.
pub open spec fn join_commas(tokens: Seq<Seq<char>>) -> Seq<char>
    decreases tokens.len(),
{
    if tokens.len() == 0 {
        Seq::empty()
    } else if tokens.len() == 1 {
        tokens[0]
    } else {
        join_commas(tokens.drop_last()) + seq![','] + tokens.last()
    }
}

/// The value of a `u32` literal: an optional plus sign, then digits,
/// in range; `None` for any other shape.
pub open spec fn u32_of(s: Seq<char>) -> Option<int> {
    let body = if s.len() > 0 && s[0] == '+' {
        s.skip(1)
    } else {
        s
    };
    if body.len() >= 1 && all_digits(body) && digits_val(body) <= u32::MAX {
        Some(digits_val(body))
    } else {
        None
    }
}

/// Splits a command line into its whitespace-separated tokens.
fn tokenize(s: &str) -> (r: Vec<String>)
    ensures
        r@.len() == tokens_of(s@).len(),
        forall|i: int| 0 <= i < r@.len() ==> (#[trigger] r@[i])@ == tokens_of(s@)[i],
{
    let len = s.unicode_len();
    let mut out: Vec<String> = Vec::new();
    let mut pos: usize = 0;
    proof {
        assert(s@.skip(0) =~= s@);
        assert(tokens_of(s@).skip(0) =~= tokens_of(s@));
    }
    while pos < len
        invariant
            pos <= len == s@.len(),
            out@.len() <= tokens_of(s@).len(),
            forall|i: int| 0 <= i < out@.len() ==> (#[trigger] out@[i])@ == tokens_of(s@)[i],
            tokens_of(s@).skip(out@.len() as int) == tokens_of(s@.skip(pos as int)),
        decreases len - pos,
    {
        let ghost before = s@.skip(pos as int);
        // skip separators
        let mut i: usize = pos;
        while i < len && (s.get_char(i) == ' ' || s.get_char(i) == '\t' || s.get_char(i) == '\r'
            || s.get_char(i) == '\n')
            invariant
                pos <= i <= len == s@.len(),
                forall|k: int| pos <= k < i ==> is_space(#[trigger] s@[k]),
            decreases len - i,
        {
            i += 1;
        }
        proof {
            assert forall|k: int| 0 <= k < i - pos implies is_space(#[trigger] before[k]) by {
                assert(before[k] == s@[pos + k]);
            }
            lemma_tokens_skip_spaces(before, i - pos);
            assert(before.skip(i - pos) =~= s@.skip(i as int));
        }
        if i == len {
            proof {
                assert(s@.skip(len as int) =~= Seq::<char>::empty());
            }
            pos = i;
            continue;
        }
        let ghost suffix = s@.skip(i as int);
        // take the token
        let mut e: usize = i;
        while e < len && !(s.get_char(e) == ' ' || s.get_char(e) == '\t' || s.get_char(e) == '\r'
            || s.get_char(e) == '\n')
            invariant
                i <= e <= len == s@.len(),
                forall|k: int| i <= k < e ==> !is_space(#[trigger] s@[k]),
            decreases len - e,
        {
            e += 1;
        }
        proof {
            assert forall|k: int| 0 <= k < e - i implies !is_space(#[trigger] suffix[k]) by {
                assert(suffix[k] == s@[i + k]);
            }
            if e < len {
                assert(suffix[e - i] == s@[e as int]);
            }
            lemma_token_len_at(suffix, e - i);
            assert(!is_space(suffix[0]));
            assert(tokens_of(suffix) == seq![suffix.take(e - i)] + tokens_of(suffix.skip(e - i)));
            assert(suffix.take(e - i) =~= s@.subrange(i as int, e as int));
            assert(suffix.skip(e - i) =~= s@.skip(e as int));
        }
        let tok = s.substring_char(i, e).to_owned();
        out.push(tok);
        proof {
            let n = out@.len() - 1;
            let all = tokens_of(s@);
            assert(all.skip(n) == seq![s@.subrange(i as int, e as int)] + tokens_of(s@.skip(e as int)));
            assert(all.skip(n).len() >= 1);
            assert(n < all.len());
            assert(all[n] == all.skip(n)[0]);
            assert(all.skip(n + 1) =~= all.skip(n).skip(1));
            assert(all.skip(n).skip(1) =~= tokens_of(s@.skip(e as int)));
        }
        pos = e;
    }
    proof {
        if pos >= len {
            assert(s@.skip(pos as int) =~= Seq::<char>::empty());
        }
        assert(tokens_of(s@).skip(out@.len() as int).len() == 0);
        assert(out@.len() == tokens_of(s@).len());
    }
    out
}

/// Reads a `u32` literal: an optional plus sign, then digits, in
/// range.
fn parse_u32(s: &str) -> (r: Option<u32>)
    ensures
        match r {
            Some(v) => u32_of(s@) == Some(v as int),
            None => u32_of(s@) is None,
        },
{
    let len = s.unicode_len();
    let start: usize = if len > 0 && s.get_char(0) == '+' {
        1
    } else {
        0
    };
    let ghost body = if s@.len() > 0 && s@[0] == '+' {
        s@.skip(1)
    } else {
        s@
    };
    proof {
        assert(body =~= s@.subrange(start as int, len as int));
    }
    if start == len {
        return None;
    }
    let mut acc: u64 = 0;
    let mut i: usize = start;
    while i < len
        invariant
            start <= i <= len == s@.len(),
            body == s@.subrange(start as int, len as int),
            body == (if s@.len() > 0 && s@[0] == '+' {
                s@.skip(1)
            } else {
                s@
            }),
            all_digits(body.take(i - start)),
            acc == digits_val(body.take(i - start)),
            acc <= u32::MAX,
        decreases len - i,
    {
        let c = s.get_char(i);
        match crate::text::char_digit_value(c) {
            Some(d) => {
                proof {
                    assert(body.take(i + 1 - start).drop_last() =~= body.take(i - start));
                    assert(body.take(i + 1 - start).last() == c);
                }
                acc = acc * 10 + (d as u64);
                i += 1;
                if acc > u32::MAX as u64 {
                    proof {
                        if all_digits(body) {
                            lemma_digits_val_monotone(body, i - start);
                        }
                    }
                    return None;
                }
            }
            None => {
                assert(!crate::text::is_digit(body[i - start]));
                return None;
            }
        }
    }
    proof {
        assert(body.take(i - start) =~= body);
    }
    Some(acc as u32)
}

/// A command entered on the input line.
#[derive(Debug, Clone, PartialEq, Eq)]
pub enum Commands {
    SetMaxPoints(u32),
    Export(String),
}

impl Commands {
    /// Reads a command line.  `set-points N` sets the maximum;
    /// `export-to PATH` asks for an export, the path handed on
    /// unresolved.  Anything else is an error carrying a message; a
    /// missing or malformed argument is an error too, never a fault.
    pub fn parse(raw_input: &str) -> (r: Result<Commands, String>)
        ensures
            ({
                let toks = tokens_of(raw_input@);
                match r {
                    Ok(c) => match c {
                        Commands::SetMaxPoints(p) => toks.len() >= 2 && toks[0] == "set-points"@
                            && u32_of(toks[1]) == Some(p as int),
                        Commands::Export(path) => toks.len() >= 2 && toks[0] == "export-to"@
                            && path@ == toks[1],
                    },
                    Err(msg) => {
                        if toks.len() == 0 {
                            msg@ == "ERROR: invalid input nothing found."@
                        } else if toks[0] == "set-points"@ {
                            (toks.len() == 1 || u32_of(toks[1]) is None) && msg@
                                == "ERROR: could not parse points from '"@ + join_commas(
                                toks.skip(1),
                            ) + "' to u32."@
                        } else if toks[0] == "export-to"@ {
                            toks.len() == 1 && msg@ == "ERROR: export-to needs a path."@
                        } else {
                            msg@ == "ERROR: '"@ + toks[0] + "' is an unknown command"@
                        }
                    },
                }
            }),
    {
        let toks = tokenize(raw_input);
        if toks.len() == 0 {
            return Err(String::from_str("ERROR: invalid input nothing found."));
        }
        if str_eq(toks[0].as_str(), "set-points") {
            if toks.len() >= 2 {
                match parse_u32(toks[1].as_str()) {
                    Some(points) => {
                        return Ok(Commands::SetMaxPoints(points));
                    }
                    None => {}
                }
            }
            let joined = join_args(&toks);
            proof {
                assert(toks@.skip(1).map_values(|t: String| t@) =~= tokens_of(
                    raw_input@,
                ).skip(1)) by {
                    let a = toks@.skip(1).map_values(|t: String| t@);
                    let b = tokens_of(raw_input@).skip(1);
                    assert(a.len() == b.len());
                    assert forall|k: int| 0 <= k < a.len() implies a[k] == b[k] by {
                        assert(a[k] == toks@[k + 1]@);
                        assert(b[k] == tokens_of(raw_input@)[k + 1]);
                    }
                }
            }
            let msg = String::from_str("ERROR: could not parse points from '").concat(
                joined.as_str(),
            ).concat("' to u32.");
            return Err(msg);
        }
        if str_eq(toks[0].as_str(), "export-to") {
            if toks.len() >= 2 {
                return Ok(Commands::Export(toks[1].clone()));
            }
            return Err(String::from_str("ERROR: export-to needs a path."));
        }
        let msg = String::from_str("ERROR: '").concat(toks[0].as_str()).concat(
            "' is an unknown command",
        );
        Err(msg)
    }
}

/// Joins all tokens after the command with commas.
fn join_args(toks: &Vec<String>) -> (r: String)
    requires
        toks@.len() >= 1,
    ensures
        r@ == join_commas(toks@.skip(1).map_values(|t: String| t@)),
{
    let ghost args = toks@.skip(1).map_values(|t: String| t@);
    let mut out = String::new();
    let mut i: usize = 1;
    while i < toks.len()
        invariant
            1 <= i <= toks@.len(),
            args == toks@.skip(1).map_values(|t: String| t@),
            out@ == join_commas(args.take(i - 1)),
        decreases toks@.len() - i,
    {
        if i > 1 {
            out.append(",");
            proof {
                reveal_strlit(",");
            }
        }
        out.append(toks[i].as_str());
        proof {
            let t = args.take(i as int);
            assert(t.drop_last() =~= args.take(i - 1));
            assert(t.last() == args[i - 1]);
            assert(args[i - 1] == toks@[i as int]@);
            if i > 1 {
                assert(","@ =~= seq![',']);
                assert(out@ =~= join_commas(args.take(i - 1)) + seq![','] + toks@[i as int]@);
            }
            assert(out@ =~= join_commas(args.take(i as int)));
        }
        i += 1;
    }
    proof {
        assert(args.take(toks@.len() - 1) =~= args);
    }
    out
}

} // verus!
