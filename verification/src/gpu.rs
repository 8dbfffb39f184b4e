//! The accelerated-execution subsystem: a registry of functions flagged for
//! acceleration, and the dispatch arithmetic for the best-effort concurrent
//! loop path.  Partitioning a range into per-worker chunks is the verified
//! heart of the dispatch; performing the chunks (a pure timing simulation in
//! the reference behaviour) carries no bindings or other observable state,
//! so a failed attempt can always fall back to the sequential path.
use vstd::prelude::*;

use crate::ast::{Stmt, StmtV, clone_stmt};
use crate::value::{Value, ValueV, view_values};

verus! {

broadcast use vstd::std_specs::vec::group_vec_axioms;

/// A registered accelerated function: name, parameter names with their type
/// placeholders, and an owned copy of the body.
pub struct GpuFn {
    pub name: String,
    pub params: Vec<(String, String)>,
    pub body: Box<Stmt>,
}

/// The mathematical mirror of `GpuFn`.
pub struct GpuFnV {
    pub name: Seq<char>,
    pub params: Seq<(Seq<char>, Seq<char>)>,
    pub body: StmtV,
}

/// The view of a typed-parameter list.
pub open spec fn view_typed_params(s: Seq<(String, String)>) -> Seq<(Seq<char>, Seq<char>)>
    decreases s,
{
    if s.len() == 0 {
        Seq::empty()
    } else {
        seq![(s[0].0@, s[0].1@)] + view_typed_params(s.drop_first())
    }
}

pub proof fn lemma_view_typed_params(s: Seq<(String, String)>)
    ensures
        view_typed_params(s).len() == s.len(),
        forall|i: int| 0 <= i < s.len() ==> view_typed_params(s)[i] == (s[i].0@, s[i].1@),
    decreases s,
{
    if s.len() > 0 {
        lemma_view_typed_params(s.drop_first());
    }
}

impl GpuFn {
    pub open spec fn view(self) -> GpuFnV {
        GpuFnV {
            name: self.name@,
            params: view_typed_params(self.params@),
            body: (*self.body).view(),
        }
    }
}

/// The view of the function registry.
pub open spec fn view_gpu_fns(s: Seq<GpuFn>) -> Seq<GpuFnV>
    decreases s,
{
    if s.len() == 0 {
        Seq::empty()
    } else {
        seq![s[0].view()] + view_gpu_fns(s.drop_first())
    }
}

pub proof fn lemma_view_gpu_fns(s: Seq<GpuFn>)
    ensures
        view_gpu_fns(s).len() == s.len(),
        forall|i: int| 0 <= i < s.len() ==> view_gpu_fns(s)[i] == s[i].view(),
    decreases s,
{
    if s.len() > 0 {
        lemma_view_gpu_fns(s.drop_first());
    }
}

/// The mathematical mirror of the runtime: its registry, whether the
/// accelerated path is available, and the size of its worker pool.
pub struct GpuV {
    pub functions: Seq<GpuFnV>,
    pub available: bool,
    pub parallel_threads: int,
}

/// The registration made last under a name wins.
pub open spec fn gpu_find(fns: Seq<GpuFnV>, name: Seq<char>) -> Option<GpuFnV>
    decreases fns,
{
    if fns.len() == 0 {
        None
    } else if fns.last().name == name {
        Some(fns.last())
    } else {
        gpu_find(fns.drop_last(), name)
    }
}

/// What executing a registered accelerated function returns: the dedicated
/// `add_gpu` kernel sums two integer arguments; any other registered
/// function yields nil.  An unregistered name, an arity mismatch against
/// the registration, and integer overflow in the kernel are errors.
pub open spec fn spec_gpu_execute(g: GpuV, name: Seq<char>, args: Seq<ValueV>) -> Result<
    ValueV,
    Seq<char>,
> {
    match gpu_find(g.functions, name) {
        None => Err("GPU function '"@ + name + "' not found"@),
        Some(f) => {
            if args.len() != f.params.len() {
                Err(
                    "GPU function '"@ + name + "' expects "@ + crate::text::dec_seq(
                        f.params.len() as int,
                    ) + " arguments, but got "@ + crate::text::dec_seq(args.len() as int),
                )
            } else if name == "add_gpu"@ {
                if args.len() >= 2 && args[0] is Number && args[1] is Number {
                    let s = args[0]->Number_0 + args[1]->Number_0;
                    if i64::MIN <= s <= i64::MAX {
                        Ok(ValueV::Number(s))
                    } else {
                        Err("GPU function 'add_gpu' overflowed"@)
                    }
                } else {
                    Ok(ValueV::Number(42))
                }
            } else {
                Ok(ValueV::Nil)
            }
        },
    }
}

/// Whether a concurrent attempt over `start..end` succeeds: it needs the
/// runtime available and at least one worker.  The attempt performs no
/// bindings, so success and failure differ only in whether the caller must
/// run the loop sequentially.
pub open spec fn spec_gpu_parallel_ok(g: GpuV, start: int, end: int) -> bool {
    g.available && g.parallel_threads >= 1
}

/// The chunk size used to split `count` iterations over `workers` workers:
/// the ceiling of their quotient.
pub open spec fn chunk_size(count: int, workers: int) -> int {
    (count + workers - 1) / workers
}

/// The chunks are equal-sized (the rounded-up quotient), except that the
/// last may be shorter, and there is at most one chunk per worker.
pub open spec fn chunks_sized(chunks: Seq<(i64, i64)>, start: int, end: int, workers: int) -> bool {
    &&& chunks.len() <= workers
    &&& forall|i: int|
        0 <= i < chunks.len() ==> #[trigger] chunks[i].1 - chunks[i].0 <= chunk_size(
            end - start,
            workers,
        )
    &&& forall|i: int|
        0 <= i < chunks.len() - 1 ==> #[trigger] chunks[i].1 - chunks[i].0 == chunk_size(
            end - start,
            workers,
        )
}

/// The accelerated runtime.
pub struct GPURuntime {
    pub functions: Vec<GpuFn>,
    pub available: bool,
    pub parallel_threads: usize,
}

impl GPURuntime {
    pub open spec fn view(self) -> GpuV {
        GpuV {
            functions: view_gpu_fns(self.functions@),
            available: self.available,
            parallel_threads: self.parallel_threads as int,
        }
    }

    /// A fresh runtime: available, with a worker pool of four.
    pub fn new() -> (g: GPURuntime)
        ensures
            g.view() == (GpuV {
                functions: Seq::<GpuFnV>::empty(),
                available: true,
                parallel_threads: 4int,
            }),
    {
        let g = GPURuntime { functions: Vec::new(), available: true, parallel_threads: 4 };
        proof {
            lemma_view_gpu_fns(g.functions@);
            assert(view_gpu_fns(g.functions@) =~= Seq::<GpuFnV>::empty());
        }
        g
    }

    /// Whether the accelerated path reports itself available.
    pub fn is_available(&self) -> (r: bool)
        ensures
            r == self.view().available,
    {
        self.available
    }

    /// Registers an accelerated function under its name; a later
    /// registration under the same name wins.
    pub fn register_function(&mut self, name: String, params: Vec<(String, String)>, body: &Stmt)
        -> (r: Result<(), String>)
        ensures
            r is Ok,
            final(self).view().functions == old(self).view().functions.push(
                GpuFnV {
                    name: name@,
                    params: view_typed_params(params@),
                    body: body.view(),
                },
            ),
            final(self).view().available == old(self).view().available,
            final(self).view().parallel_threads == old(self).view().parallel_threads,
    {
        let ghost snap = self.functions@;
        let f = GpuFn { name, params, body: Box::new(clone_stmt(body)) };
        let ghost fv = f.view();
        self.functions.push(f);
        proof {
            lemma_view_gpu_fns(self.functions@);
            lemma_view_gpu_fns(snap);
            assert(view_gpu_fns(self.functions@) =~= view_gpu_fns(snap).push(fv));
        }
        Ok(())
    }

    /// Looks a registered function up by name; the last registration wins.
    pub fn find_function(&self, name: &str) -> (r: Option<&GpuFn>)
        ensures
            match r {
                Some(f) => gpu_find(self.view().functions, name@) == Some(f.view()),
                None => gpu_find(self.view().functions, name@) is None,
            },
    {
        let ghost fns = view_gpu_fns(self.functions@);
        proof {
            lemma_view_gpu_fns(self.functions@);
            assert(fns.subrange(0, self.functions@.len() as int) =~= fns);
        }
        let mut i: usize = self.functions.len();
        while i > 0
            invariant
                i <= self.functions@.len(),
                fns == view_gpu_fns(self.functions@),
                fns.len() == self.functions@.len(),
                forall|j: int| 0 <= j < self.functions@.len() ==> fns[j] == self.functions@[j].view(),
                gpu_find(fns, name@) == gpu_find(fns.subrange(0, i as int), name@),
            decreases i,
        {
            i = i - 1;
            let ghost pre = fns.subrange(0, i + 1);
            proof {
                assert(pre.drop_last() =~= fns.subrange(0, i as int));
                assert(pre.last() == self.functions@[i as int].view());
            }
            if crate::text::chars_eq_str_str(self.functions[i].name.as_str(), name) {
                proof {
                    assert(gpu_find(pre, name@) == Some(pre.last()));
                }
                return Some(&self.functions[i]);
            }
            proof {
                assert(gpu_find(pre, name@) == gpu_find(pre.drop_last(), name@));
            }
        }
        proof {
            assert(fns.subrange(0, 0) =~= Seq::<GpuFnV>::empty());
        }
        None
    }

    /// Executes a registered accelerated function on already-evaluated
    /// arguments.
    pub fn execute_function(&self, name: &str, args: &Vec<Value>) -> (r: Result<Value, String>)
        ensures
            match r {
                Ok(v) => spec_gpu_execute(self.view(), name@, view_values(args@)) == Ok::<
                    ValueV,
                    Seq<char>,
                >(v.view()) && (forall|n: int| crate::value::val_wf(v.view(), n)),
                Err(m) => spec_gpu_execute(self.view(), name@, view_values(args@)) == Err::<
                    ValueV,
                    Seq<char>,
                >(m@),
            },
    {
        proof {
            crate::value::lemma_view_values(args@);
        }
        let f = match self.find_function(name) {
            Some(f) => f,
            None => {
                let mut m = String::from_str("GPU function '");
                m.append(name);
                m.append("' not found");
                return Err(m);
            },
        };
        proof {
            lemma_view_typed_params(f.params@);
        }
        if args.len() != f.params.len() {
            let mut m = String::from_str("GPU function '");
            m.append(name);
            m.append("' expects ");
            let c1 = crate::text::u64_to_string(f.params.len() as u64);
            m.append(c1.as_str());
            m.append(" arguments, but got ");
            let c2 = crate::text::u64_to_string(args.len() as u64);
            m.append(c2.as_str());
            return Err(m);
        }
        if crate::text::chars_eq_str_str(name, "add_gpu") {
            if args.len() >= 2 {
                let ok = match (&args[0], &args[1]) {
                    (Value::Number(_), Value::Number(_)) => true,
                    _ => false,
                };
                if ok {
                    let a = match &args[0] {
                        Value::Number(n) => *n,
                        _ => 0,
                    };
                    let b = match &args[1] {
                        Value::Number(n) => *n,
                        _ => 0,
                    };
                    return match a.checked_add(b) {
                        Some(sum) => Ok(Value::Number(sum)),
                        None => Err(String::from_str("GPU function 'add_gpu' overflowed")),
                    };
                }
            }
            Ok(Value::Number(42))
        } else {
            Ok(Value::Nil)
        }
    }

    /// Attempts the concurrent execution of a loop over `start..end`: the
    /// range is split into contiguous chunks, one per worker.  With the
    /// runtime unavailable or no workers the attempt fails and the caller
    /// must run the whole range sequentially; on success nothing observable
    /// happens, because the attempt performs no bindings.
    pub fn execute_parallel(&mut self, start: i64, end: i64) -> (r: Result<Vec<(i64, i64)>, String>)
        ensures
            final(self).view() == old(self).view(),
            r is Ok <==> spec_gpu_parallel_ok(old(self).view(), start as int, end as int),
            (r matches Ok(chunks) ==> chunks_wf(chunks@, start as int, end as int)
                && chunks_sized(
                chunks@,
                start as int,
                end as int,
                old(self).view().parallel_threads,
            )),
    {
        if !self.available {
            return Err(String::from_str("accelerated runtime unavailable"));
        }
        if self.parallel_threads == 0 {
            return Err(String::from_str("no workers available"));
        }
        Ok(partition_chunks(start, end, self.parallel_threads))
    }
}

/// The chunks cover `start..end` contiguously and in order: consecutive
/// chunks meet, the first starts at `start`, the last ends at `end`, and an
/// empty range yields no chunks.
pub open spec fn chunks_wf(chunks: Seq<(i64, i64)>, start: int, end: int) -> bool {
    &&& (start < end ==> chunks.len() >= 1)
    &&& (start >= end ==> chunks.len() == 0)
    &&& (chunks.len() >= 1 ==> chunks[0].0 == start && chunks.last().1 == end)
    &&& forall|i: int| 0 <= i < chunks.len() ==> #[trigger] chunks[i].0 < chunks[i].1
    &&& forall|i: int| 0 <= i < chunks.len() - 1 ==> #[trigger] chunks[i].1 == chunks[i + 1].0
}

/// Splits `start..end` into contiguous chunks of the rounded-up equal size
/// `chunk_size(end - start, workers)`, at most one per worker; only the
/// last chunk may be shorter.
pub fn partition_chunks(start: i64, end: i64, workers: usize) -> (r: Vec<(i64, i64)>)
    requires
        workers >= 1,
    ensures
        chunks_wf(r@, start as int, end as int),
        chunks_sized(r@, start as int, end as int, workers as int),
{
    let mut chunks: Vec<(i64, i64)> = Vec::new();
    if start >= end {
        return chunks;
    }
    let count = (end as i128) - (start as i128);
    let w = workers as i128;
    let size0 = (count + w - 1) / w;
    proof {
        vstd::arithmetic::div_mod::lemma_fundamental_div_mod(
            count as int + w as int - 1,
            w as int,
        );
        assert(w as int * size0 as int >= count as int);
        assert(size0 >= 1) by (nonlinear_arith)
            requires
                w >= 1 && count >= 1 && (w as int) * (size0 as int) >= count as int,
        ;
    }
    let size: i128 = size0;
    let ghost sz = chunk_size(end - start, workers as int);
    proof {
        assert(sz == size as int);
    }
    let mut lo = start;
    while lo < end
        invariant
            start <= lo <= end,
            start < end,
            size >= 1,
            sz == size as int,
            w == workers as int,
            count == end - start,
            w * (size as int) >= count,
            lo < end ==> ((chunks@.len() == 0 && lo == start) || (chunks@.len() >= 1
                && chunks@.last().1 == lo)),
            chunks@.len() >= 1 ==> chunks@[0].0 == start && chunks@.last().1 == lo,
            lo == end ==> chunks@.len() >= 1,
            forall|i: int| 0 <= i < chunks@.len() ==> #[trigger] chunks@[i].0 < chunks@[i].1,
            forall|i: int|
                0 <= i < chunks@.len() - 1 ==> #[trigger] chunks@[i].1 == chunks@[i + 1].0,
            forall|i: int|
                0 <= i < chunks@.len() ==> #[trigger] chunks@[i].1 - chunks@[i].0 <= sz,
            forall|i: int|
                0 <= i < chunks@.len() - 1 ==> #[trigger] chunks@[i].1 - chunks@[i].0 == sz,
            lo < end ==> forall|i: int|
                0 <= i < chunks@.len() ==> #[trigger] chunks@[i].1 - chunks@[i].0 == sz,
            chunks@.len() >= 1 ==> chunks@.last().0 - start == (chunks@.len() - 1) * sz,
        decreases end - lo,
    {
        let remaining = (end as i128) - (lo as i128);
        let step = if size < remaining {
            size
        } else {
            remaining
        };
        proof {
            assert(1 <= step <= remaining);
            assert(lo + step <= end);
            if chunks@.len() >= 1 {
                assert(lo - start == (chunks@.len() - 1) * sz + sz);
                assert((chunks@.len() - 1) * sz + sz == chunks@.len() as int * sz)
                    by (nonlinear_arith);
            } else {
                assert(lo - start == chunks@.len() as int * sz) by (nonlinear_arith)
                    requires
                        lo == start && chunks@.len() == 0,
                ;
            }
        }
        let hi = ((lo as i128) + step) as i64;
        chunks.push((lo, hi));
        lo = hi;
    }
    proof {
        if chunks@.len() >= 1 {
            let k = chunks@.len() as int;
            assert(chunks@.last().0 - start == (k - 1) * sz);
            assert(chunks@.last().0 < end);
            assert((k - 1) * sz < count);
            assert(k - 1 < w) by (nonlinear_arith)
                requires
                    (k - 1) * sz < count && w * sz >= count && sz >= 1 && k >= 1 && w >= 1,
            ;
        }
    }
    chunks
}

} // verus!
