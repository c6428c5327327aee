use vstd::prelude::*;

use crate::bytes::{
    find_nul, is_prefix, lemma_find_nul, lemma_skip_nuls, parent_dir, scan_past_nuls, scan_to_nul,
    skip_nuls, spec_file_name, spec_parent_dir, starts_with, sub_vec,
};
use crate::bytes::file_name as file_name_of;
use crate::cmdline::{merge_quoted, parse_command_line};

verus! {

/// The argument count encoded in the first four buffer bytes, little
/// endian. The kernel stores a signed native integer there; a value with
/// the sign bit set counts as zero arguments, as a signed reader would
/// never enter the argument loop.
pub open spec fn le_u32_at(s: Seq<u8>) -> int
    recommends
        s.len() >= 4,
{
    s[0] + 256 * (s[1] + 256 * (s[2] + 256 * s[3]))
}

pub open spec fn argc_count(s: Seq<u8>) -> int {
    if s.len() < 4 {
        0
    } else if le_u32_at(s) >= 0x80000000 {
        0
    } else {
        le_u32_at(s)
    }
}

/// The executable path: the bytes between the count header and the first
/// NUL (or the buffer end).
pub open spec fn spec_exe(s: Seq<u8>) -> Seq<u8>
    recommends
        s.len() >= 4,
{
    s.subrange(4, find_nul(s, 4))
}

/// Where the argument region starts: past the run of NUL padding that
/// follows the executable path.
pub open spec fn spec_arg_start(s: Seq<u8>) -> int {
    skip_nuls(s, find_nul(s, 4))
}

/// Up to `count` NUL-terminated strings from `pos` on; a trailing fragment
/// without its NUL is dropped, as is everything after the buffer end.
pub open spec fn args_toks(s: Seq<u8>, pos: int, count: int) -> Seq<Seq<u8>>
    decreases count,
{
    if count <= 0 {
        Seq::empty()
    } else {
        let j = find_nul(s, pos);
        if j < pos || j >= s.len() {
            Seq::empty()
        } else {
            seq![s.subrange(pos, j)] + args_toks(s, j + 1, count - 1)
        }
    }
}

/// The position just past the consumed argument region: after the
/// `count`-th terminator, or the buffer end when the region ran out.
pub open spec fn args_next(s: Seq<u8>, pos: int, count: int) -> int
    decreases count,
{
    if count <= 0 {
        pos
    } else {
        let j = find_nul(s, pos);
        if j < pos || j >= s.len() {
            s.len() as int
        } else {
            args_next(s, j + 1, count - 1)
        }
    }
}

/// NUL-terminated environment strings from `pos` on, ending at a
/// zero-length string (two consecutive NULs), an unterminated fragment, or
/// the buffer end.
pub open spec fn env_toks(s: Seq<u8>, pos: int) -> Seq<Seq<u8>>
    decreases s.len() - pos,
{
    let j = find_nul(s, pos);
    if pos < 0 || j <= pos || j >= s.len() {
        Seq::empty()
    } else {
        seq![s.subrange(pos, j)] + env_toks(s, j + 1)
    }
}

pub open spec fn spec_raw_args(s: Seq<u8>) -> Seq<Seq<u8>> {
    args_toks(s, spec_arg_start(s), argc_count(s))
}

/// The argument vector: the raw NUL-delimited tokens, quote-merged exactly
/// as the fallback textual path merges its tokens.
pub open spec fn spec_argv(s: Seq<u8>) -> Seq<Seq<u8>> {
    merge_quoted(spec_raw_args(s), 0)
}

pub open spec fn spec_env_start(s: Seq<u8>) -> int {
    args_next(s, spec_arg_start(s), argc_count(s))
}

pub open spec fn spec_envp(s: Seq<u8>) -> Seq<Seq<u8>> {
    env_toks(s, spec_env_start(s))
}

pub open spec fn path_prefix() -> Seq<u8> {
    seq![80u8, 65u8, 84u8, 72u8, 61u8]
}

/// The root drawn from the first `PATH=` environment entry: everything
/// after its sixth byte. The offset is deliberate, one past the literal
/// prefix, not a trim of it; an entry too short for it yields empty.
pub open spec fn path_env_root(envs: Seq<Seq<u8>>, i: int) -> Seq<u8>
    decreases envs.len() - i,
{
    if i < 0 || i >= envs.len() {
        Seq::empty()
    } else if is_prefix(path_prefix(), envs[i]) {
        if envs[i].len() >= 6 {
            envs[i].subrange(6, envs[i].len() as int)
        } else {
            Seq::empty()
        }
    } else {
        path_env_root(envs, i + 1)
    }
}

/// The inferred root directory: the parent directory of an absolute
/// executable path, and otherwise what the first `PATH=` environment
/// entry yields (its deliberate offset-6 slice).
pub open spec fn spec_root(exe: Seq<u8>, envs: Seq<Seq<u8>>) -> Seq<u8> {
    if exe.len() >= 2 && exe[0] == 47 {
        spec_parent_dir(exe)
    } else {
        path_env_root(envs, 0)
    }
}

/// The structured fields decoded from one kernel process-arguments buffer.
pub struct ProcArgs {
    pub exe: Vec<u8>,
    pub name: Vec<u8>,
    pub argv: Vec<Vec<u8>>,
    pub envp: Vec<Vec<u8>>,
    pub root: Vec<u8>,
}

/// Decodes the kernel's process-arguments buffer: the argument count in the
/// first four bytes, then the NUL-terminated executable path, NUL padding,
/// exactly that many NUL-terminated arguments (fewer when the buffer runs
/// out), and NUL-terminated environment entries up to a zero-length string
/// or the buffer end. Fails exactly when the buffer cannot hold the count
/// header.
pub fn decode_proc_args(buf: &Vec<u8>) -> (r: Option<ProcArgs>)
    ensures
        r is Some <==> buf@.len() >= 4,
        r matches Some(pa) ==> {
            &&& pa.exe@ == spec_exe(buf@)
            &&& pa.name@ == spec_file_name(spec_exe(buf@))
            &&& pa.argv.deep_view() == spec_argv(buf@)
            &&& pa.envp.deep_view() == spec_envp(buf@)
            &&& pa.root@ == spec_root(spec_exe(buf@), spec_envp(buf@))
        },
{
    let ghost s = buf@;
    if buf.len() < 4 {
        return None;
    }
    let v: u32 = (buf[0] as u32) + 256 * (buf[1] as u32) + 65536 * (buf[2] as u32) + 16777216 * (
    buf[3] as u32);
    let cnt: usize = if v >= 2147483648u32 {
        0
    } else {
        v as usize
    };
    proof {
        assert(cnt == argc_count(s));
    }

    let exe_end = scan_to_nul(buf, 4);
    proof {
        lemma_find_nul(s, 4);
    }
    let exe = sub_vec(buf, 4, exe_end);
    let name = file_name_of(&exe);

    let arg_start = scan_past_nuls(buf, exe_end);
    proof {
        lemma_skip_nuls(s, exe_end as int);
    }

    let mut toks: Vec<Vec<u8>> = Vec::new();
    let mut pos: usize = arg_start;
    let mut c: usize = 0;
    while c < cnt
        invariant
            c <= cnt,
            pos <= buf.len(),
            s == buf@,
            args_toks(s, arg_start as int, cnt as int) == toks.deep_view() + args_toks(
                s,
                pos as int,
                cnt - c,
            ),
            args_next(s, arg_start as int, cnt as int) == args_next(s, pos as int, cnt - c),
        decreases cnt - c,
    {
        let ghost t0 = toks.deep_view();
        let j = scan_to_nul(buf, pos);
        proof {
            lemma_find_nul(s, pos as int);
        }
        if j >= buf.len() {
            proof {
                assert(args_toks(s, pos as int, cnt - c) =~~= Seq::<Seq<u8>>::empty());
                assert(args_toks(s, s.len() as int, 0) =~~= Seq::<Seq<u8>>::empty());
                assert(toks.deep_view() + args_toks(s, pos as int, cnt - c) =~~= toks.deep_view()
                    + args_toks(s, s.len() as int, 0int));
            }
            pos = buf.len();
            c = cnt;
        } else {
            let tok = sub_vec(buf, pos, j);
            toks.push(tok);
            proof {
                assert(toks.deep_view() =~~= t0 + seq![s.subrange(pos as int, j as int)]);
            }
            pos = j + 1;
            c = c + 1;
        }
    }
    proof {
        assert(toks.deep_view() + args_toks(s, pos as int, 0int) =~~= toks.deep_view());
        assert(toks.deep_view() == spec_raw_args(s));
        assert(pos == spec_env_start(s));
    }
    let argv = parse_command_line(&toks);

    let mut envp: Vec<Vec<u8>> = Vec::new();
    let mut p: usize = pos;
    while p < buf.len()
        invariant
            p <= buf.len(),
            s == buf@,
            env_toks(s, pos as int) == envp.deep_view() + env_toks(s, p as int),
        ensures
            envp.deep_view() == env_toks(s, pos as int),
        decreases buf.len() - p,
    {
        let ghost e0 = envp.deep_view();
        let j = scan_to_nul(buf, p);
        proof {
            lemma_find_nul(s, p as int);
        }
        if j == p || j >= buf.len() {
            proof {
                assert(env_toks(s, p as int) =~~= Seq::<Seq<u8>>::empty());
                assert(envp.deep_view() + env_toks(s, p as int) =~~= envp.deep_view());
            }
            break;
        }
        let e = sub_vec(buf, p, j);
        envp.push(e);
        proof {
            assert(envp.deep_view() =~~= e0 + seq![s.subrange(p as int, j as int)]);
        }
        p = j + 1;
    }

    let root: Vec<u8> = if exe.len() >= 2 && exe[0] == 47 {
        parent_dir(&exe)
    } else {
        path_root(&envp)
    };

    Some(ProcArgs { exe, name, argv, envp, root })
}

/// The bytes after the sixth byte of the first `PATH=` environment entry
/// (see `path_env_root`); empty when no entry carries the prefix.
fn path_root(envp: &Vec<Vec<u8>>) -> (r: Vec<u8>)
    ensures
        r@ == path_env_root(envp.deep_view(), 0),
{
    let prefix: Vec<u8> = vec![80u8, 65u8, 84u8, 72u8, 61u8];
    proof {
        assert(prefix@ =~= path_prefix());
    }
    let mut k: usize = 0;
    while k < envp.len()
        invariant
            k <= envp.len(),
            prefix@ == path_prefix(),
            path_env_root(envp.deep_view(), 0) == path_env_root(envp.deep_view(), k as int),
        decreases envp.len() - k,
    {
        if starts_with(&envp[k], &prefix) {
            proof {
                assert(envp@[k as int]@ =~= envp.deep_view()[k as int]);
                assert(is_prefix(path_prefix(), envp.deep_view()[k as int]));
            }
            if envp[k].len() >= 6 {
                let f = sub_vec(&envp[k], 6, envp[k].len());
                proof {
                    assert(f@ =~= envp.deep_view()[k as int].subrange(
                        6,
                        envp.deep_view()[k as int].len() as int,
                    ));
                }
                return f;
            }
            let short: Vec<u8> = Vec::new();
            proof {
                assert(short@ =~= path_env_root(envp.deep_view(), k as int));
            }
            return short;
        }
        proof {
            assert(envp@[k as int]@ =~= envp.deep_view()[k as int]);
            assert(!is_prefix(path_prefix(), envp.deep_view()[k as int]));
        }
        k = k + 1;
    }
    let empty: Vec<u8> = Vec::new();
    proof {
        assert(empty@ =~= path_env_root(envp.deep_view(), envp.deep_view().len() as int));
    }
    empty
}

} // verus!
