//! The compiler: a single left-to-right pass from source text to a resolved
//! program, matching brackets with an explicit stack of pending `[` entries.

use vstd::prelude::*;
use vstd::string::StrSliceExecFns;

use crate::program::{Command, Program, target_in_bounds};

pub use crate::error::CompileError;

verus! {

/// The compiler's state mid-pass: the commands emitted so far and, for each
/// pending `[`, its command index and its character offset in the source.
pub struct CompState {
    /// Commands emitted so far; pending `Open`s carry the placeholder target 0.
    pub cmds: Seq<Command>,
    /// The stack of pending `[`s, bottom first: (command index, char offset).
    pub opens: Seq<(usize, usize)>,
}

/// The compiler's state before any character is processed.
pub open spec fn init_state() -> CompState {
    CompState { cmds: Seq::empty(), opens: Seq::empty() }
}

/// What one source character does to the compiler's state.
///
/// The eight recognized characters map to commands; every other character is
/// skipped. `[` emits a placeholder `Open` and pushes it; `]` pops the
/// nearest pending `[`, patches its target to the index one past the `Close`
/// about to be emitted, and emits that `Close` pointing back at the `Open` —
/// or fails at offset `off` if nothing is pending.
pub open spec fn compile_char(st: CompState, off: usize, ch: char) -> Result<
    CompState,
    CompileError,
> {
    if ch == '>' {
        Ok(CompState { cmds: st.cmds.push(Command::Right), ..st })
    } else if ch == '<' {
        Ok(CompState { cmds: st.cmds.push(Command::Left), ..st })
    } else if ch == '+' {
        Ok(CompState { cmds: st.cmds.push(Command::Inc), ..st })
    } else if ch == '-' {
        Ok(CompState { cmds: st.cmds.push(Command::Dec), ..st })
    } else if ch == ',' {
        Ok(CompState { cmds: st.cmds.push(Command::Read), ..st })
    } else if ch == '.' {
        Ok(CompState { cmds: st.cmds.push(Command::Write), ..st })
    } else if ch == '[' {
        Ok(
            CompState {
                cmds: st.cmds.push(Command::Open(0)),
                opens: st.opens.push((st.cmds.len() as usize, off)),
            },
        )
    } else if ch == ']' {
        if st.opens.len() == 0 {
            Err(CompileError::UnmatchedBracket(off))
        } else {
            Ok(
                CompState {
                    cmds: st.cmds.update(
                        st.opens.last().0 as int,
                        Command::Open((st.cmds.len() + 1) as usize),
                    ).push(Command::Close(st.opens.last().0)),
                    opens: st.opens.drop_last(),
                },
            )
        }
    } else {
        Ok(st)
    }
}

/// The compiler's state after the first `n` characters of `src`, or the
/// error met along the way.
pub open spec fn fold_prefix(src: Seq<char>, n: int) -> Result<CompState, CompileError>
    decreases n,
{
    if n <= 0 {
        Ok(init_state())
    } else {
        match fold_prefix(src, n - 1) {
            Ok(st) => compile_char(st, (n - 1) as usize, src[n - 1]),
            Err(e) => Err(e),
        }
    }
}

/// What compiling `src` yields: the translated commands with a final `Halt`
/// appended, or `UnmatchedBracket` at a stray `]`, or — when `[`s are still
/// pending after the pass — at the earliest unmatched `[`.
pub open spec fn compile_spec(src: Seq<char>) -> Result<Seq<Command>, CompileError> {
    match fold_prefix(src, src.len() as int) {
        Ok(st) => {
            if st.opens.len() > 0 {
                Err(CompileError::UnmatchedBracket(st.opens[0].1))
            } else {
                Ok(st.cmds.push(Command::Halt))
            }
        },
        Err(e) => Err(e),
    }
}

/// The structure a mid-pass state always has after `n` characters: no more
/// commands than characters, a stack of distinct placeholder `Open`s in
/// increasing order, and — for every already-resolved pair — mutually
/// inverse jump targets.
pub open spec fn st_wf(st: CompState, n: int) -> bool {
    &&& st.cmds.len() <= n
    &&& forall|k: int|
        0 <= k < st.opens.len() ==> (#[trigger] st.opens[k]).0 < st.cmds.len()
    &&& forall|k: int|
        0 <= k < st.opens.len() ==> st.cmds[(#[trigger] st.opens[k]).0 as int] == Command::Open(0)
    &&& forall|k1: int, k2: int|
        0 <= k1 < k2 < st.opens.len() ==> (#[trigger] st.opens[k1]).0 < (
        #[trigger] st.opens[k2]).0
    &&& forall|i: int|
        0 <= i < st.cmds.len() ==> match #[trigger] st.cmds[i] {
            Command::Open(t) => t != 0 ==> 1 <= t <= st.cmds.len() && st.cmds[t - 1]
                == Command::Close(i as usize),
            Command::Close(v) => v < i && st.cmds[v as int] == Command::Open((i + 1) as usize),
            _ => true,
        }
    &&& forall|i: int|
        0 <= i < st.cmds.len() && #[trigger] st.cmds[i] == Command::Open(0usize) ==> exists|k: int|
            0 <= k < st.opens.len() && (#[trigger] st.opens[k]).0 == i
}

/// Every state the fold reaches is structurally well formed.
pub proof fn lemma_fold_wf(src: Seq<char>, n: int)
    requires
        0 <= n <= usize::MAX,
    ensures
        fold_prefix(src, n) matches Ok(st) ==> st_wf(st, n),
    decreases n,
{
    if n > 0 {
        lemma_fold_wf(src, n - 1);
        if fold_prefix(src, n) is Ok {
            let st = fold_prefix(src, n - 1).unwrap();
            let st2 = fold_prefix(src, n).unwrap();
            let ch = src[n - 1];
            assert(compile_char(st, (n - 1) as usize, ch) == Ok::<CompState, CompileError>(st2));
            if ch == ']' {
                let len = st.cmds.len();
                let ci = st.opens.last().0;
                let patched = st.cmds.update(ci as int, Command::Open((len + 1) as usize));
                assert(st2.cmds == patched.push(Command::Close(ci)));
                assert(st2.opens == st.opens.drop_last());
                let top = st.opens.len() - 1;
                assert(st.cmds[ci as int] == Command::Open(0));
                assert forall|i: int|
                    0 <= i < st2.cmds.len() implies match #[trigger] st2.cmds[i] {
                    Command::Open(t) => t != 0 ==> 1 <= t <= st2.cmds.len() && st2.cmds[t - 1]
                        == Command::Close(i as usize),
                    Command::Close(v) => v < i && st2.cmds[v as int] == Command::Open(
                        (i + 1) as usize,
                    ),
                    _ => true,
                } by {
                    if i < len && i != ci {
                        assert(st2.cmds[i] == st.cmds[i]);
                        match st.cmds[i] {
                            Command::Open(t) => {
                                if t != 0 {
                                    assert(st.cmds[t - 1] == Command::Close(i as usize));
                                    assert(t - 1 != ci);
                                }
                            },
                            Command::Close(v) => {
                                assert(st.cmds[v as int] == Command::Open((i + 1) as usize));
                                assert(v != ci);
                            },
                            _ => {},
                        }
                    } else if i == ci {
                        assert(st2.cmds[ci as int] == Command::Open((len + 1) as usize));
                        assert(1 <= len + 1 <= st2.cmds.len());
                        assert(st2.cmds[len as int] == Command::Close(ci));
                    } else {
                        assert(i == len);
                        assert(st2.cmds[i] == Command::Close(ci));
                        assert(ci < i);
                        assert(st2.cmds[ci as int] == Command::Open((len + 1) as usize));
                        assert(st2.cmds[ci as int] == Command::Open(((i + 1) as usize)));
                    }
                }
                assert forall|i: int|
                    0 <= i < st2.cmds.len() && #[trigger] st2.cmds[i] == Command::Open(0usize)
                        implies exists|k: int|
                    0 <= k < st2.opens.len() && (#[trigger] st2.opens[k]).0 == i by {
                    assert(i != ci && i != len);
                    assert(st.cmds[i] == Command::Open(0usize));
                    let k = choose|k: int|
                        0 <= k < st.opens.len() && (#[trigger] st.opens[k]).0 == i;
                    assert(k != top);
                    assert(0 <= k < st2.opens.len() && st2.opens[k].0 == i);
                }
            } else if ch == '[' {
                assert(st2.cmds == st.cmds.push(Command::Open(0)));
                assert(st2.opens == st.opens.push(((st.cmds.len() as usize), (n - 1) as usize)));
                assert forall|i: int|
                    0 <= i < st2.cmds.len() && #[trigger] st2.cmds[i] == Command::Open(0usize)
                        implies exists|k: int|
                    0 <= k < st2.opens.len() && (#[trigger] st2.opens[k]).0 == i by {
                    if i < st.cmds.len() {
                        let k = choose|k: int|
                            0 <= k < st.opens.len() && (#[trigger] st.opens[k]).0 == i;
                        assert(0 <= k < st2.opens.len() && st2.opens[k].0 == i);
                    } else {
                        let k = st.opens.len() as int;
                        assert(0 <= k < st2.opens.len() && st2.opens[k].0 == i);
                    }
                }
            } else {
                if st2.cmds.len() > st.cmds.len() {
                    assert forall|i: int|
                        0 <= i < st2.cmds.len() && #[trigger] st2.cmds[i] == Command::Open(0usize)
                            implies exists|k: int|
                        0 <= k < st2.opens.len() && (#[trigger] st2.opens[k]).0 == i by {
                        assert(i < st.cmds.len());
                        assert(st.cmds[i] == Command::Open(0usize));
                    }
                }
            }
        }
    }
}

/// How many more `[` than `]` stand among the first `n` characters of `src`.
pub open spec fn depth_after(src: Seq<char>, n: int) -> int
    decreases n,
{
    if n <= 0 {
        0
    } else {
        depth_after(src, n - 1) + (if src[n - 1] == '[' {
            1int
        } else if src[n - 1] == ']' {
            -1int
        } else {
            0int
        })
    }
}

/// No prefix of the first `n` characters closes more brackets than it opens.
pub open spec fn no_stray_close(src: Seq<char>, n: int) -> bool {
    forall|k: int| 0 <= k <= n ==> #[trigger] depth_after(src, k) >= 0
}

/// Brackets pair off completely: no stray `]`, and nothing left open at the end.
pub open spec fn balanced(src: Seq<char>) -> bool {
    no_stray_close(src, src.len() as int) && depth_after(src, src.len() as int) == 0
}

/// How the pending-`[` stack relates to bracket depth after `n` characters:
/// the stack is exactly as deep as the brackets, each pending `[` sits at the
/// offset where the depth last climbed past its stack position, and the depth
/// has stayed above that position ever since.
pub open spec fn st_depths(src: Seq<char>, n: int, st: CompState) -> bool {
    &&& st.opens.len() == depth_after(src, n)
    &&& forall|k: int| 0 <= k < st.opens.len() ==> (#[trigger] st.opens[k]).1 < n
    &&& forall|k: int|
        0 <= k < st.opens.len() ==> src[(#[trigger] st.opens[k]).1 as int] == '['
    &&& forall|k: int|
        0 <= k < st.opens.len() ==> depth_after(src, (#[trigger] st.opens[k]).1 as int) == k
    &&& forall|k: int, p: int|
        #![trigger st.opens[k], depth_after(src, p)]
        0 <= k < st.opens.len() && st.opens[k].1 < p <= n ==> depth_after(src, p) >= k + 1
}

/// The fold fails within the first `n` characters exactly when some prefix
/// closes more brackets than it opens; and while it has not failed, its
/// pending-`[` stack mirrors the bracket depth as `st_depths` says.
pub proof fn lemma_fold_depths(src: Seq<char>, n: int)
    requires
        0 <= n <= usize::MAX,
        n <= src.len(),
    ensures
        fold_prefix(src, n) is Ok <==> no_stray_close(src, n),
        fold_prefix(src, n) matches Ok(st) ==> st_depths(src, n, st),
    decreases n,
{
    if n == 0 {
        assert(depth_after(src, 0) == 0);
    } else {
        lemma_fold_depths(src, n - 1);
        let ch = src[n - 1];
        let d1 = depth_after(src, n - 1);
        let d2 = depth_after(src, n);
        if fold_prefix(src, n - 1) is Err {
            assert(!no_stray_close(src, n - 1));
            assert(!no_stray_close(src, n));
        } else {
            let st = fold_prefix(src, n - 1).unwrap();
            assert(no_stray_close(src, n - 1));
            assert(st.opens.len() == d1);
            if ch == ']' {
                if st.opens.len() == 0 {
                    assert(d2 == -1);
                    assert(!no_stray_close(src, n));
                    assert(fold_prefix(src, n) is Err);
                } else {
                    let st2 = fold_prefix(src, n).unwrap();
                    assert(st2.opens == st.opens.drop_last());
                    assert(d2 == d1 - 1 >= 0);
                    assert forall|k: int| 0 <= k <= n implies #[trigger] depth_after(src, k)
                        >= 0 by {
                        if k < n {
                            assert(depth_after(src, k) >= 0);
                        }
                    }
                    assert(no_stray_close(src, n));
                    assert forall|k: int, p: int|
                        #![trigger st2.opens[k], depth_after(src, p)]
                        0 <= k < st2.opens.len() && st2.opens[k].1 < p <= n implies depth_after(
                        src,
                        p,
                    ) >= k + 1 by {
                        assert(st2.opens[k] == st.opens[k]);
                        if p < n {
                            assert(depth_after(src, p) >= k + 1);
                        } else {
                            assert(d2 == st.opens.len() - 1);
                            assert(k + 1 <= st2.opens.len());
                        }
                    }
                }
            } else if ch == '[' {
                let st2 = fold_prefix(src, n).unwrap();
                assert(st2.opens == st.opens.push(((st.cmds.len() as usize), (n - 1) as usize)));
                assert(d2 == d1 + 1);
                assert forall|k: int| 0 <= k <= n implies #[trigger] depth_after(src, k) >= 0 by {
                    if k < n {
                        assert(depth_after(src, k) >= 0);
                    }
                }
                assert forall|k: int|
                    0 <= k < st2.opens.len() implies depth_after(
                    src,
                    (#[trigger] st2.opens[k]).1 as int,
                ) == k by {
                    if k < st.opens.len() {
                        assert(st2.opens[k] == st.opens[k]);
                    } else {
                        assert(st2.opens[k].1 == n - 1);
                    }
                }
                assert forall|k: int, p: int|
                    #![trigger st2.opens[k], depth_after(src, p)]
                    0 <= k < st2.opens.len() && st2.opens[k].1 < p <= n implies depth_after(src, p)
                    >= k + 1 by {
                    if k < st.opens.len() {
                        assert(st2.opens[k] == st.opens[k]);
                        if p < n {
                            assert(depth_after(src, p) >= k + 1);
                        } else {
                            assert(depth_after(src, n - 1) >= k + 1);
                        }
                    } else {
                        assert(st2.opens[k].1 == n - 1);
                        assert(p == n);
                    }
                }
            } else {
                let st2 = fold_prefix(src, n).unwrap();
                assert(st2.opens == st.opens);
                assert(d2 == d1);
                assert forall|k: int| 0 <= k <= n implies #[trigger] depth_after(src, k) >= 0 by {
                    if k < n {
                        assert(depth_after(src, k) >= 0);
                    }
                }
                assert forall|k: int, p: int|
                    #![trigger st2.opens[k], depth_after(src, p)]
                    0 <= k < st2.opens.len() && st2.opens[k].1 < p <= n implies depth_after(src, p)
                    >= k + 1 by {
                    assert(st2.opens[k] == st.opens[k]);
                    if p < n {
                        assert(depth_after(src, p) >= k + 1);
                    } else {
                        assert(st.opens[k].1 < n - 1);
                        assert(depth_after(src, n - 1) >= k + 1);
                    }
                }
            }
        }
    }
}

/// Compilation succeeds on every source whose brackets are well balanced,
/// and resolution round-trips: each `Open`'s target is one past its matching
/// `Close`, and that `Close`'s target is the index of the `Open` itself.
pub proof fn lemma_balanced_compiles(src: Seq<char>)
    requires
        src.len() <= usize::MAX,
        balanced(src),
    ensures
        compile_spec(src) is Ok,
        ({
            let cmds = compile_spec(src).unwrap();
            forall|i: int|
                0 <= i < cmds.len() ==> match #[trigger] cmds[i] {
                    Command::Open(t) => 1 <= t < cmds.len() && cmds[t - 1] == Command::Close(
                        i as usize,
                    ),
                    Command::Close(v) => v < i && cmds[v as int] == Command::Open((i + 1) as usize),
                    _ => true,
                }
        }),
{
    let n = src.len() as int;
    lemma_fold_depths(src, n);
    lemma_fold_wf(src, n);
    let st = fold_prefix(src, n).unwrap();
    assert(st.opens.len() == 0);
    let cmds = compile_spec(src).unwrap();
    assert(cmds == st.cmds.push(Command::Halt));
    assert forall|i: int|
        0 <= i < cmds.len() implies match #[trigger] cmds[i] {
        Command::Open(t) => 1 <= t < cmds.len() && cmds[t - 1] == Command::Close(i as usize),
        Command::Close(v) => v < i && cmds[v as int] == Command::Open((i + 1) as usize),
        _ => true,
    } by {
        if i < st.cmds.len() {
            assert(cmds[i] == st.cmds[i]);
            match st.cmds[i] {
                Command::Open(t) => {
                    assert(st.cmds[i] != Command::Open(0usize));
                    assert(t != 0);
                    assert(st.cmds[t - 1] == Command::Close(i as usize));
                    assert(cmds[t - 1] == st.cmds[t - 1]);
                },
                Command::Close(v) => {
                    assert(cmds[v as int] == st.cmds[v as int]);
                },
                _ => {},
            }
        }
    }
}

/// A stray `]` — one standing where every earlier bracket is already matched —
/// fails compilation with `UnmatchedBracket` at exactly its offset.
pub proof fn lemma_stray_close_fails(src: Seq<char>, j: int)
    requires
        src.len() <= usize::MAX,
        0 <= j < src.len(),
        src[j] == ']',
        depth_after(src, j) == 0,
        no_stray_close(src, j),
    ensures
        compile_spec(src) == Err::<Seq<Command>, CompileError>(
            CompileError::UnmatchedBracket(j as usize),
        ),
{
    lemma_fold_depths(src, j);
    let st = fold_prefix(src, j).unwrap();
    assert(st.opens.len() == 0);
    assert(fold_prefix(src, j + 1) == Err::<CompState, CompileError>(
        CompileError::UnmatchedBracket(j as usize),
    ));
    lemma_err_stable(src, j + 1, src.len() as int);
}

/// When no prefix has a stray `]` but some `[` is never closed, compilation
/// fails with `UnmatchedBracket` at the earliest such `[`: the last `[` whose
/// preceding prefix is fully balanced, past which the depth never returns to
/// zero.
pub proof fn lemma_unmatched_open_fails(src: Seq<char>, i: int)
    requires
        src.len() <= usize::MAX,
        no_stray_close(src, src.len() as int),
        0 <= i < src.len(),
        src[i] == '[',
        depth_after(src, i) == 0,
        forall|p: int| i < p <= src.len() ==> #[trigger] depth_after(src, p) >= 1,
    ensures
        compile_spec(src) == Err::<Seq<Command>, CompileError>(
            CompileError::UnmatchedBracket(i as usize),
        ),
{
    let n = src.len() as int;
    lemma_fold_depths(src, n);
    let st = fold_prefix(src, n).unwrap();
    assert(depth_after(src, n) >= 1);
    assert(st.opens.len() >= 1);
    let o0 = st.opens[0].1;
    assert(src[o0 as int] == '[');
    assert(depth_after(src, o0 as int) == 0);
    if o0 < i {
        assert(depth_after(src, i) >= 1);
        assert(false);
    } else if i < o0 {
        assert(depth_after(src, o0 as int) >= 1);
        assert(false);
    }
    assert(compile_spec(src) == Err::<Seq<Command>, CompileError>(
        CompileError::UnmatchedBracket(o0),
    ));
}

/// Once the fold fails, every longer prefix reports the same error.
pub proof fn lemma_err_stable(src: Seq<char>, n1: int, n2: int)
    requires
        0 <= n1 <= n2,
        fold_prefix(src, n1) is Err,
    ensures
        fold_prefix(src, n2) == fold_prefix(src, n1),
    decreases n2 - n1,
{
    if n2 > n1 {
        lemma_err_stable(src, n1, n2 - 1);
    }
}

/// The compiler. Create one with `new`, then consume it with `compile`.
pub struct Compiler {
    commands: Vec<Command>,
    opens: Vec<(usize, usize)>,
}

impl Compiler {
    /// No commands translated yet and no brackets pending.
    pub closed spec fn inited(self) -> bool {
        self.commands@ == Seq::<Command>::empty() && self.opens@ == Seq::<(usize, usize)>::empty()
    }

    /// A fresh compiler.
    pub fn new() -> (c: Compiler)
        ensures
            c.inited(),
    {
        Compiler { commands: Vec::new(), opens: Vec::new() }
    }

    /// Translate `src` into a resolved program, exactly as `compile_spec`
    /// describes; successful programs are well-formed.
    pub fn compile(self, src: String) -> (r: Result<Program, CompileError>)
        requires
            self.inited(),
        ensures
            match compile_spec(src@) {
                Ok(cmds) => r matches Ok(p) && p@ == cmds && p.wf(),
                Err(e) => r matches Err(e2) && e2 == e,
            },
    {
        let mut this = self;
        let s = src.as_str();
        let n = s.unicode_len();
        let mut i: usize = 0;
        while i < n
            invariant
                i <= n,
                n == src@.len(),
                s@ == src@,
                this.commands@.len() <= i,
                fold_prefix(src@, i as int) == Ok::<CompState, CompileError>(
                    CompState { cmds: this.commands@, opens: this.opens@ },
                ),
            decreases n - i,
        {
            proof {
                lemma_fold_wf(src@, i as int);
            }
            let ch = s.get_char(i);
            match ch {
                '>' => this.commands.push(Command::Right),
                '<' => this.commands.push(Command::Left),
                '+' => this.commands.push(Command::Inc),
                '-' => this.commands.push(Command::Dec),
                '[' => {
                    this.opens.push((this.commands.len(), i));
                    this.commands.push(Command::Open(0));
                },
                ']' => {
                    match this.opens.pop() {
                        Some(entry) => {
                            let target = this.commands.len() + 1;
                            let slot = &mut this.commands[entry.0];
                            *slot = Command::Open(target);
                            this.commands.push(Command::Close(entry.0));
                        },
                        None => {
                            proof {
                                lemma_err_stable(src@, i as int + 1, src@.len() as int);
                            }
                            return Err(CompileError::UnmatchedBracket(i));
                        },
                    }
                },
                ',' => this.commands.push(Command::Read),
                '.' => this.commands.push(Command::Write),
                _ => {},
            }
            i = i + 1;
        }

        if this.opens.len() > 0 {
            return Err(CompileError::UnmatchedBracket(this.opens[0].1));
        }

        proof {
            lemma_fold_wf(src@, src@.len() as int);
        }
        let ghost pre_cmds = this.commands@;
        this.commands.push(Command::Halt);
        proof {
            assert(this.commands@ =~= compile_spec(src@).unwrap());
            assert forall|j: int|
                0 <= j < this.commands@.len() implies target_in_bounds(
                #[trigger] this.commands@[j],
                this.commands@.len() as nat,
            ) by {
                if j < pre_cmds.len() {
                    assert(this.commands@[j] == pre_cmds[j]);
                }
            }
            assert(this.commands@.last() == Command::Halt);
        }
        Ok(Program(this.commands))
    }
}

} // verus!
