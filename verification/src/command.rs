//! The command dispatcher's parsing half: a line of user input is split on
//! whitespace and mapped to one of the structured commands. Malformed input
//! maps to `Unrecognized`, which callers answer with the usage text and no
//! state change; a blank line maps to `Empty` and has no effect at all.

use vstd::prelude::*;
use crate::bytes::bytes_eq;

verus! {

/// Whitespace for the purpose of tokenizing a command line.
pub open spec fn is_ws(b: u8) -> bool {
    b == 32 || b == 9 || b == 10 || b == 13
}

/// The contents of a sequence of byte vectors.
pub open spec fn token_views(ts: Seq<Vec<u8>>) -> Seq<Seq<u8>> {
    ts.map_values(|t: Vec<u8>| t@)
}

/// The whitespace-separated tokens of a byte sequence.
pub open spec fn spec_tokens(s: Seq<u8>) -> Seq<Seq<u8>>
    decreases s.len(),
{
    if s.len() == 0 {
        Seq::empty()
    } else {
        let rest = spec_tokens(s.drop_last());
        let b = s.last();
        if is_ws(b) {
            rest
        } else if s.len() >= 2 && !is_ws(s[s.len() - 2]) {
            rest.update(rest.len() - 1, rest.last().push(b))
        } else {
            rest.push(seq![b])
        }
    }
}

/// Splits a line into its whitespace-separated tokens.
pub fn tokenize(line: &Vec<u8>) -> (toks: Vec<Vec<u8>>)
    ensures
        token_views(toks@) == spec_tokens(line@),
{
    let mut toks: Vec<Vec<u8>> = Vec::new();
    let mut cur: Vec<u8> = Vec::new();
    let mut i: usize = 0;
    while i < line.len()
        invariant
            i <= line@.len(),
            (cur@.len() > 0) <==> (i > 0 && !is_ws(line@[i as int - 1])),
            cur@.len() == 0 ==> spec_tokens(line@.take(i as int)) == token_views(toks@),
            cur@.len() > 0 ==> spec_tokens(line@.take(i as int)) == token_views(toks@).push(cur@),
        decreases line@.len() - i,
    {
        let b = line[i];
        proof {
            assert(line@.take(i + 1).drop_last() =~= line@.take(i as int));
            assert(line@.take(i + 1).last() == line@[i as int]);
        }
        if b == 32 || b == 9 || b == 10 || b == 13 {
            if cur.len() > 0 {
                let ghost oldtoks = toks@;
                let ghost oldcur = cur@;
                toks.push(cur);
                cur = Vec::new();
                proof {
                    assert(token_views(toks@) =~= token_views(oldtoks).push(oldcur));
                }
            }
        } else {
            if cur.len() > 0 {
                let ghost oldcur = cur@;
                cur.push(b);
                proof {
                    let s = line@.take(i + 1);
                    let rest = spec_tokens(line@.take(i as int));
                    assert(s.len() >= 2 && !is_ws(s[s.len() - 2]));
                    assert(rest == token_views(toks@).push(oldcur));
                    assert(rest.last() == oldcur);
                    assert(rest.update(rest.len() - 1, oldcur.push(b)) =~= token_views(
                        toks@,
                    ).push(cur@));
                }
            } else {
                cur.push(b);
                proof {
                    let s = line@.take(i + 1);
                    if s.len() >= 2 {
                        assert(s[s.len() - 2] == line@[i as int - 1]);
                        assert(is_ws(s[s.len() - 2]));
                    }
                    assert(cur@ =~= seq![b]);
                }
            }
        }
        i = i + 1;
    }
    proof {
        assert(line@.take(line@.len() as int) =~= line@);
    }
    if cur.len() > 0 {
        let ghost oldtoks = toks@;
        let ghost oldcur = cur@;
        toks.push(cur);
        proof {
            assert(token_views(toks@) =~= token_views(oldtoks).push(oldcur));
        }
    }
    toks
}

/// The `put` keyword.
pub open spec fn put_kw() -> Seq<u8> {
    seq![112u8, 117u8, 116u8]
}

/// The `get` keyword.
pub open spec fn get_kw() -> Seq<u8> {
    seq![103u8, 101u8, 116u8]
}

/// The `exit` keyword.
pub open spec fn exit_kw() -> Seq<u8> {
    seq![101u8, 120u8, 105u8, 116u8]
}

/// A structured user command.
pub enum Command {
    /// Store `value` under `key` locally and trigger replication.
    Put { key: Vec<u8>, value: Vec<u8> },
    /// Look `key` up, local store first, then the network.
    Get { key: Vec<u8> },
    /// Terminate the event loop.
    Exit,
    /// A blank line; it has no effect.
    Empty,
    /// Anything else, including a known keyword with too few arguments; it
    /// is answered with the usage text and has no other effect.
    Unrecognized,
}

/// What `parse_command` must return for a given token sequence.
pub open spec fn parse_spec_matches(ts: Seq<Seq<u8>>, c: Command) -> bool {
    if ts.len() == 0 {
        c is Empty
    } else if ts[0] == put_kw() {
        if ts.len() >= 3 {
            c matches Command::Put { key, value } && key@ == ts[1] && value@ == ts[2]
        } else {
            c is Unrecognized
        }
    } else if ts[0] == get_kw() {
        if ts.len() >= 2 {
            c matches Command::Get { key } && key@ == ts[1]
        } else {
            c is Unrecognized
        }
    } else if ts[0] == exit_kw() {
        c is Exit
    } else {
        c is Unrecognized
    }
}

/// Parses one whitespace-tokenized, case-sensitive command line. A `put`
/// takes a key and a value, a `get` takes a key, `exit` takes nothing;
/// surplus tokens are ignored, missing ones make the command unrecognized.
pub fn parse_command(line: &Vec<u8>) -> (c: Command)
    ensures
        parse_spec_matches(spec_tokens(line@), c),
{
    let mut toks = tokenize(line);
    let ghost ts = spec_tokens(line@);
    if toks.len() == 0 {
        return Command::Empty;
    }
    proof {
        assert(toks@[0]@ == ts[0]);
    }
    let kw_put: Vec<u8> = vec![112u8, 117u8, 116u8];
    let kw_get: Vec<u8> = vec![103u8, 101u8, 116u8];
    let kw_exit: Vec<u8> = vec![101u8, 120u8, 105u8, 116u8];
    proof {
        assert(kw_put@ =~= put_kw());
        assert(kw_get@ =~= get_kw());
        assert(kw_exit@ =~= exit_kw());
    }
    if bytes_eq(&toks[0], &kw_put) {
        if toks.len() >= 3 {
            proof {
                assert(toks@[1]@ == ts[1]);
                assert(toks@[2]@ == ts[2]);
            }
            let value = toks.remove(2);
            let key = toks.remove(1);
            return Command::Put { key, value };
        }
        return Command::Unrecognized;
    }
    if bytes_eq(&toks[0], &kw_get) {
        if toks.len() >= 2 {
            proof {
                assert(toks@[1]@ == ts[1]);
            }
            let key = toks.remove(1);
            return Command::Get { key };
        }
        return Command::Unrecognized;
    }
    if bytes_eq(&toks[0], &kw_exit) {
        return Command::Exit;
    }
    Command::Unrecognized
}

} // verus!
