//! The script execution boundary: the marker prefix constant and the
//! verified text transformations around process execution (argument
//! splitting, stream cleaning, stderr noise filtering).
use vstd::prelude::*;

use crate::text::contains_spec;
use crate::text::contains_sub;
use crate::text::find_char;
use crate::text::find_char_spec;
use crate::text::join_spec;
use crate::text::join_with;
use crate::text::lines_of;
use crate::text::lines_spec;
use crate::text::trim;
use crate::text::trim_spec;

verus! {

/// The fixed prefix of a marker line. Any stdout line beginning with it
/// is consumed by the output protocol.
pub open spec fn prefix_spec() -> Seq<char> {
    "OUT__"@
}

pub fn marker_prefix() -> (r: &'static str)
    ensures
        r@ == prefix_spec(),
{
    "OUT__"
}

/// An interpreter invocation split into arguments: pieces between single
/// spaces, trimmed, empty pieces dropped.
pub open spec fn split_args_spec(s: Seq<char>) -> Seq<Seq<char>>
    decreases s.len(),
{
    match find_char_spec(s, ' ') {
        None => if trim_spec(s).len() == 0 {
            Seq::<Seq<char>>::empty()
        } else {
            seq![trim_spec(s)]
        },
        Some(i) => if 0 <= i < s.len() {
            let p = trim_spec(s.take(i));
            (if p.len() == 0 {
                Seq::<Seq<char>>::empty()
            } else {
                seq![p]
            }) + split_args_spec(s.skip(i + 1))
        } else {
            Seq::<Seq<char>>::empty()
        },
    }
}

pub fn split_args(s: &str) -> (r: Vec<String>)
    ensures
        r.deep_view() == split_args_spec(s@),
{
    let mut acc: Vec<String> = Vec::new();
    let mut rest: &str = s;
    let mut rlen = rest.unicode_len();
    let mut done = false;
    proof {
        assert(acc.deep_view() + split_args_spec(rest@) =~= split_args_spec(s@));
    }
    while !done
        invariant
            rlen == rest@.len(),
            !done ==> acc.deep_view() + split_args_spec(rest@) == split_args_spec(s@),
            done ==> acc.deep_view() == split_args_spec(s@),
        decreases rlen + 1, if done {
            0int
        } else {
            1int
        },
    {
        let ghost prev = acc.deep_view();
        let ghost prev_rest = rest@;
        match find_char(rest, ' ') {
            Option::None => {
                let piece = trim(rest);
                if piece.unicode_len() > 0 {
                    acc.push(piece);
                    proof {
                        assert(acc.deep_view() =~= prev.push(trim_spec(prev_rest)));
                        assert(split_args_spec(prev_rest) == seq![trim_spec(prev_rest)]);
                        assert(prev.push(trim_spec(prev_rest)) =~= prev + split_args_spec(
                            prev_rest,
                        ));
                    }
                } else {
                    proof {
                        assert(split_args_spec(prev_rest) =~= Seq::<Seq<char>>::empty());
                    }
                }
                done = true;
                proof {
                    assert(acc.deep_view() =~= split_args_spec(s@));
                }
            },
            Option::Some(i) => {
                let head = rest.substring_char(0, i);
                proof {
                    assert(head@ =~= prev_rest.take(i as int));
                }
                let piece = trim(head);
                if piece.unicode_len() > 0 {
                    acc.push(piece);
                    proof {
                        assert(acc.deep_view() =~= prev.push(trim_spec(prev_rest.take(i as int))));
                    }
                }
                rest = rest.substring_char(i + 1, rlen);
                rlen = rlen - (i + 1);
                proof {
                    assert(rest@ =~= prev_rest.skip(i + 1));
                    if trim_spec(prev_rest.take(i as int)).len() == 0 {
                        assert(split_args_spec(prev_rest) =~= split_args_spec(rest@));
                        assert(acc.deep_view() + split_args_spec(rest@) =~= prev
                            + split_args_spec(prev_rest));
                    } else {
                        assert(split_args_spec(prev_rest) =~= seq![
                            trim_spec(prev_rest.take(i as int)),
                        ] + split_args_spec(rest@));
                        assert(acc.deep_view() + split_args_spec(rest@) =~= prev
                            + split_args_spec(prev_rest));
                    }
                }
            },
        }
    }
    proof {
        assert(acc.deep_view() =~= split_args_spec(s@));
    }
    acc
}

/// A captured stream trimmed, an empty one turned into an absent one.
pub open spec fn clean_stream_spec(s: Seq<char>) -> Option<Seq<char>> {
    if trim_spec(s).len() == 0 {
        Option::None
    } else {
        Option::Some(trim_spec(s))
    }
}

pub fn clean_stream(s: &str) -> (r: Option<String>)
    ensures
        match r {
            Option::Some(t) => clean_stream_spec(s@) == Option::Some(t@),
            Option::None => clean_stream_spec(s@) is None,
        },
{
    let t = trim(s);
    if t.unicode_len() == 0 {
        Option::None
    } else {
        Option::Some(t)
    }
}

/// A stderr line the executor hides: known noisy interpreter diagnostics.
pub open spec fn noisy_line(l: Seq<char>) -> bool {
    contains_spec(l, "[Perftrack"@) || contains_spec(l, "NamedPipeIPC"@)
}

/// The lines of a stream with the noisy ones dropped, in order.
pub open spec fn quiet_lines(ls: Seq<Seq<char>>) -> Seq<Seq<char>>
    decreases ls.len(),
{
    if ls.len() == 0 {
        Seq::<Seq<char>>::empty()
    } else {
        (if noisy_line(ls[0]) {
            Seq::<Seq<char>>::empty()
        } else {
            seq![ls[0]]
        }) + quiet_lines(ls.skip(1))
    }
}

/// Captured stderr with known noisy diagnostic lines removed.
pub open spec fn filter_stderr_spec(s: Seq<char>) -> Seq<char> {
    join_spec(quiet_lines(lines_spec(s)), "\n"@)
}

pub fn filter_stderr(s: &str) -> (r: String)
    ensures
        r@ == filter_stderr_spec(s@),
{
    let ls = lines_of(s);
    let mut kept: Vec<String> = Vec::new();
    let mut i: usize = 0;
    proof {
        assert(ls.deep_view().skip(0) =~= ls.deep_view());
        assert(kept.deep_view() + quiet_lines(ls.deep_view()) =~= quiet_lines(ls.deep_view()));
    }
    while i < ls.len()
        invariant
            i <= ls.len(),
            ls.deep_view().len() == ls.len(),
            kept.deep_view() + quiet_lines(ls.deep_view().skip(i as int)) == quiet_lines(
                ls.deep_view(),
            ),
        decreases ls.len() - i,
    {
        let ghost prev = kept.deep_view();
        let ghost cur = ls.deep_view().skip(i as int);
        proof {
            assert(cur[0] == ls.deep_view()[i as int]);
            assert(cur.skip(1) =~= ls.deep_view().skip(i + 1));
        }
        let noisy = contains_sub(ls[i].as_str(), "[Perftrack") || contains_sub(
            ls[i].as_str(),
            "NamedPipeIPC",
        );
        if !noisy {
            kept.push(ls[i].clone());
            proof {
                assert(kept.deep_view() =~= prev.push(ls.deep_view()[i as int]));
                assert(kept.deep_view() + quiet_lines(ls.deep_view().skip(i + 1)) =~= prev
                    + quiet_lines(cur));
            }
        } else {
            proof {
                assert(kept.deep_view() + quiet_lines(ls.deep_view().skip(i + 1)) =~= prev
                    + quiet_lines(cur));
            }
        }
        i = i + 1;
    }
    proof {
        assert(ls.deep_view().skip(ls.len() as int) =~= Seq::<Seq<char>>::empty());
        assert(kept.deep_view() =~= quiet_lines(ls.deep_view()));
    }
    join_with(&kept, "\n")
}

/// Why an execution request is refused before any process is spawned, if
/// it is: an empty script, an empty invocation, or an invocation that
/// splits into no arguments.
pub open spec fn exec_request_error(script: Seq<char>, args: Seq<char>) -> Option<Seq<char>> {
    if script.len() == 0 {
        Option::Some("Please provide the script to run"@)
    } else if args.len() == 0 {
        Option::Some("Please provide the args to run"@)
    } else if split_args_spec(args).len() == 0 {
        Option::Some("empty args"@)
    } else {
        Option::None
    }
}

pub fn check_exec_request(script: &str, args: &str) -> (r: Result<(), String>)
    ensures
        match r {
            Result::Ok(()) => exec_request_error(script@, args@) is None,
            Result::Err(m) => exec_request_error(script@, args@) == Option::Some(m@),
        },
{
    if script.unicode_len() == 0 {
        return Result::Err(String::from_str("Please provide the script to run"));
    }
    if args.unicode_len() == 0 {
        return Result::Err(String::from_str("Please provide the args to run"));
    }
    let parts = split_args(args);
    if parts.len() == 0 {
        proof {
            assert(parts.deep_view().len() == 0);
        }
        return Result::Err(String::from_str("empty args"));
    }
    proof {
        assert(parts.deep_view().len() == parts.len() as int);
    }
    Result::Ok(())
}

} // verus!
