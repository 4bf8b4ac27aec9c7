//! Whole-graph validation: the screen output, single producers, resolved
//! inputs, and an execution order in which every pass follows the passes
//! whose outputs it reads.

use vstd::prelude::*;
use vstd::set_lib::*;

use crate::renderpass::{read_names, ColorInput, ColorOutput, Renderpass};

verus! {

/// The reserved output name of the pass whose output is presented.
pub const SCREEN_OUTPUT: &'static str = "SCREEN_OUTPUT";

/// Why a set of passes does not form a valid frame graph.
#[derive(Clone, Debug)]
pub enum GraphValidationError {
    /// No pass writes the color output `SCREEN_OUTPUT`.
    NoScreenOutput,
    /// Two passes write the named output.
    DuplicateProducer(String),
    /// The named pass reads the named input, which no pass writes.
    DanglingInput(String, String),
    /// The passes named, in order, each read an output of the next, and
    /// the last reads an output of the first.
    CyclicDependency(Vec<String>),
}

pub open spec fn color_ins(p: Renderpass) -> Seq<ColorInput> {
    p.spec_data().spec_color_inputs()
}

pub open spec fn color_outs(p: Renderpass) -> Seq<ColorOutput> {
    p.spec_data().spec_color_outputs()
}

pub open spec fn pass_name(p: Renderpass) -> Seq<char> {
    p.spec_data().spec_name()
}

/// The pass writes a color output called `n`.
pub open spec fn produces_color(p: Renderpass, n: Seq<char>) -> bool {
    exists|k: int| 0 <= k < color_outs(p).len() && (#[trigger] color_outs(p)[k]).name@ == n
}

/// The pass writes a depth output called `n`.
pub open spec fn produces_depth(p: Renderpass, n: Seq<char>) -> bool {
    p.spec_data().spec_depth_output() matches Some(d) && d.name@ == n
}

/// The pass writes an output called `n`, of either kind.
pub open spec fn produces(p: Renderpass, n: Seq<char>) -> bool {
    produces_color(p, n) || produces_depth(p, n)
}

/// Pass `b` reads an output of pass `a` of the matching kind, so `a` must run first.
pub open spec fn edge(ps: Seq<Renderpass>, a: int, b: int) -> bool {
    &&& 0 <= a < ps.len()
    &&& 0 <= b < ps.len()
    &&& (exists|k: int|
        0 <= k < color_ins(ps[b]).len() && produces_color(ps[a], (#[trigger] color_ins(ps[b])[k]).name@)) || (
    ps[b].spec_data().spec_depth_input() matches Some(d) && produces_depth(ps[a], d.name@))
}

/// Pass `i` writes the color output `SCREEN_OUTPUT`.
pub open spec fn screen_producer(ps: Seq<Renderpass>, i: int) -> bool {
    produces_color(ps[i], SCREEN_OUTPUT@)
}

pub open spec fn no_screen_output(ps: Seq<Renderpass>) -> bool {
    forall|i: int| 0 <= i < ps.len() ==> !screen_producer(ps, i)
}

pub open spec fn several_screen_outputs(ps: Seq<Renderpass>) -> bool {
    exists|i: int, j: int|
        0 <= i < ps.len() && 0 <= j < ps.len() && i != j && screen_producer(ps, i) && screen_producer(ps, j)
}

/// Two different passes write an output called `n`.
pub open spec fn duplicated(ps: Seq<Renderpass>, n: Seq<char>) -> bool {
    exists|i: int, j: int|
        0 <= i < ps.len() && 0 <= j < ps.len() && i != j && #[trigger] produces(ps[i], n) && #[trigger] produces(
            ps[j],
            n,
        )
}

/// All the output names of a pass: its color outputs, then its depth output.
pub open spec fn written_names(p: Renderpass) -> Seq<Seq<char>> {
    crate::renderpass::output_names(color_outs(p)) + crate::renderpass::depth_output_names(
        p.spec_data().spec_depth_output(),
    )
}

/// Some output name is written by two different passes.
pub open spec fn has_duplicate_producer(ps: Seq<Renderpass>) -> bool {
    exists|i: int, k: int|
        0 <= i < ps.len() && 0 <= k < written_names(ps[i]).len() && duplicated(ps, #[trigger] written_names(ps[i])[k])
}

/// Output `k` of pass `i` is the first output, in declaration order of
/// passes and then of outputs, whose name two passes write.
pub open spec fn first_duplicate(ps: Seq<Renderpass>, i: int, k: int) -> bool {
    &&& 0 <= i < ps.len()
    &&& 0 <= k < written_names(ps[i]).len()
    &&& duplicated(ps, written_names(ps[i])[k])
    &&& forall|i2: int, k2: int|
        0 <= i2 < i && 0 <= k2 < written_names(ps[i2]).len() ==> !duplicated(ps, #[trigger] written_names(ps[i2])[k2])
    &&& forall|k2: int| 0 <= k2 < k ==> !duplicated(ps, #[trigger] written_names(ps[i])[k2])
}

/// `n` is the name of the first output written by two passes.
pub open spec fn reports_first_duplicate(ps: Seq<Renderpass>, n: Seq<char>) -> bool {
    exists|i: int, k: int| #[trigger] first_duplicate(ps, i, k) && written_names(ps[i])[k] == n
}

/// Pass `b` reads the input `n`, which no pass writes with the matching kind.
pub open spec fn dangling(ps: Seq<Renderpass>, b: int, n: Seq<char>) -> bool {
    &&& 0 <= b < ps.len()
    &&& {
        ||| (exists|k: int| 0 <= k < color_ins(ps[b]).len() && (#[trigger] color_ins(ps[b])[k]).name@ == n)
            && forall|a: int| 0 <= a < ps.len() ==> !produces_color(#[trigger] ps[a], n)
        ||| (ps[b].spec_data().spec_depth_input() matches Some(d) && d.name@ == n) && forall|a: int|
            0 <= a < ps.len() ==> !produces_depth(#[trigger] ps[a], n)
    }
}

/// Some pass reads an input that no pass writes.
pub open spec fn has_dangling_input(ps: Seq<Renderpass>) -> bool {
    exists|b: int, n: Seq<char>| dangling(ps, b, n)
}

/// `c` lists passes each of which must run before the next, and the last
/// before the first.
pub open spec fn is_cycle(ps: Seq<Renderpass>, c: Seq<int>) -> bool {
    &&& c.len() > 0
    &&& forall|k: int| 0 <= k < c.len() - 1 ==> edge(ps, #[trigger] c[k], c[k + 1])
    &&& edge(ps, c.last(), c[0])
}

/// No pass occurs twice in `c`.
pub open spec fn is_simple(c: Seq<int>) -> bool {
    forall|a: int, b: int| 0 <= a < c.len() && 0 <= b < c.len() && a != b ==> c[a] != c[b]
}

/// `o` lists every pass exactly once, and each pass after every pass
/// whose output it reads.
pub open spec fn is_execution_order(ps: Seq<Renderpass>, o: Seq<usize>) -> bool {
    &&& o.len() == ps.len()
    &&& forall|i: int| 0 <= i < o.len() ==> (#[trigger] o[i]) < ps.len()
    &&& forall|i: int, j: int| 0 <= i < o.len() && 0 <= j < o.len() && i != j ==> o[i] != o[j]
    &&& forall|i: int, j: int| 0 <= i < o.len() && 0 <= j < o.len() && edge(ps, #[trigger] o[i] as int, #[trigger] o[j] as int) ==> i < j
}

/// Pass `x` is among the first `k` passes of `o`.
pub open spec fn placed_before(o: Seq<usize>, k: int, x: int) -> bool {
    exists|j: int| 0 <= j < k && o[j] as int == x
}

/// Once the first `k` passes of `o` have run, pass `m` could run: it has
/// not run yet and every pass whose output it reads has.
pub open spec fn runnable(ps: Seq<Renderpass>, o: Seq<usize>, k: int, m: int) -> bool {
    &&& 0 <= m < ps.len()
    &&& !placed_before(o, k, m)
    &&& forall|a: int| #[trigger] edge(ps, a, m) ==> placed_before(o, k, a)
}

/// At each step `o` takes the earliest-declared pass that could run, so
/// that independent passes keep their declaration order.
pub open spec fn takes_earliest(ps: Seq<Renderpass>, o: Seq<usize>) -> bool {
    forall|k: int, m: int| 0 <= k < o.len() && 0 <= m < o[k] ==> !#[trigger] runnable(ps, o, k, m)
}

fn produces_color_exec(p: &Renderpass, n: &String) -> (r: bool)
    ensures
        r == produces_color(*p, n@),
{
    let outs = p.colorOutputs();
    let mut k: usize = 0;
    while k < outs.len()
        invariant
            0 <= k <= outs@.len(),
            outs@ == color_outs(*p),
            forall|j: int| 0 <= j < k ==> (#[trigger] outs@[j]).name@ != n@,
        decreases outs@.len() - k,
    {
        if outs[k].name == *n {
            return true;
        }
        k = k + 1;
    }
    false
}

fn produces_depth_exec(p: &Renderpass, n: &String) -> (r: bool)
    ensures
        r == produces_depth(*p, n@),
{
    match p.depthOutput() {
        Some(d) => d.name == *n,
        None => false,
    }
}

fn produces_exec(p: &Renderpass, n: &String) -> (r: bool)
    ensures
        r == produces(*p, n@),
{
    produces_color_exec(p, n) || produces_depth_exec(p, n)
}

/// Whether pass `b` reads an output of pass `a`.
fn has_edge(ps: &Vec<Renderpass>, a: usize, b: usize) -> (r: bool)
    requires
        a < ps@.len(),
        b < ps@.len(),
    ensures
        r == edge(ps@, a as int, b as int),
{
    let ins = ps[b].colorInputs();
    let mut k: usize = 0;
    while k < ins.len()
        invariant
            a < ps@.len(),
            b < ps@.len(),
            0 <= k <= ins@.len(),
            ins@ == color_ins(ps@[b as int]),
            forall|j: int| 0 <= j < k ==> !produces_color(ps@[a as int], (#[trigger] ins@[j]).name@),
        decreases ins@.len() - k,
    {
        if produces_color_exec(&ps[a], &ins[k].name) {
            return true;
        }
        k = k + 1;
    }
    match ps[b].depthInput() {
        Some(d) => produces_depth_exec(&ps[a], &d.name),
        None => false,
    }
}

/// Exactly one pass may write the color output `SCREEN_OUTPUT`.
fn check_screen_output(ps: &Vec<Renderpass>) -> (r: Result<(), GraphValidationError>)
    ensures
        r is Ok <==> !no_screen_output(ps@) && !several_screen_outputs(ps@),
        r matches Err(e) ==> if no_screen_output(ps@) {
            e is NoScreenOutput
        } else {
            e matches GraphValidationError::DuplicateProducer(n) && n@ == SCREEN_OUTPUT@
        },
{
    let screen = SCREEN_OUTPUT.to_owned();
    let mut first: Option<usize> = None;
    let mut i: usize = 0;
    while i < ps.len()
        invariant
            0 <= i <= ps@.len(),
            screen@ == SCREEN_OUTPUT@,
            first is None ==> forall|j: int| 0 <= j < i ==> !screen_producer(ps@, j),
            first matches Some(f) ==> f < i && screen_producer(ps@, f as int) && forall|j: int|
                0 <= j < i && j != f ==> !screen_producer(ps@, j),
        decreases ps@.len() - i,
    {
        if produces_color_exec(&ps[i], &screen) {
            match first {
                Some(f) => {
                    assert(screen_producer(ps@, f as int) && screen_producer(ps@, i as int));
                    return Err(GraphValidationError::DuplicateProducer(screen));
                },
                None => {
                    first = Some(i);
                },
            }
        }
        i = i + 1;
    }
    match first {
        Some(f) => Ok(()),
        None => Err(GraphValidationError::NoScreenOutput),
    }
}

proof fn lemma_written_name_produced(p: Renderpass, k: int)
    requires
        0 <= k < written_names(p).len(),
    ensures
        produces(p, written_names(p)[k]),
{
    let outs = color_outs(p);
    if k < outs.len() {
        assert(written_names(p)[k] == outs[k].name@);
    }
}

fn written_names_exec(p: &Renderpass) -> (r: Vec<String>)
    ensures
        crate::renderpass::string_views(r@) == written_names(*p),
{
    let outs = p.colorOutputs();
    let mut names: Vec<String> = Vec::new();
    let mut k: usize = 0;
    while k < outs.len()
        invariant
            0 <= k <= outs@.len(),
            outs@ == color_outs(*p),
            crate::renderpass::string_views(names@) == crate::renderpass::output_names(outs@.take(k as int)),
        decreases outs@.len() - k,
    {
        let ghost prev = names@;
        names.push(outs[k].name.clone());
        assert(outs@.take(k + 1) =~= outs@.take(k as int).push(outs@[k as int]));
        assert(crate::renderpass::output_names(outs@.take(k + 1)) =~= crate::renderpass::output_names(
            outs@.take(k as int),
        ).push(outs@[k as int].name@));
        assert(crate::renderpass::string_views(names@) =~= crate::renderpass::string_views(prev).push(
            outs@[k as int].name@,
        ));
        k = k + 1;
    }
    assert(outs@.take(k as int) =~= outs@);
    if let Some(d) = p.depthOutput() {
        names.push(d.name.clone());
    }
    assert(crate::renderpass::string_views(names@) =~= written_names(*p));
    names
}

/// No output name may be written by two passes.
fn check_single_producers(ps: &Vec<Renderpass>) -> (r: Result<(), GraphValidationError>)
    ensures
        r is Ok <==> !has_duplicate_producer(ps@),
        r matches Err(e) ==> (e matches GraphValidationError::DuplicateProducer(n) && reports_first_duplicate(ps@, n@)),
{
    let mut i: usize = 0;
    while i < ps.len()
        invariant
            0 <= i <= ps@.len(),
            forall|i2: int, k2: int|
                0 <= i2 < i && 0 <= k2 < written_names(ps@[i2]).len() ==> !duplicated(
                    ps@,
                    #[trigger] written_names(ps@[i2])[k2],
                ),
        decreases ps@.len() - i,
    {
        let names = written_names_exec(&ps[i]);
        let mut k: usize = 0;
        while k < names.len()
            invariant
                0 <= i < ps@.len(),
                0 <= k <= names@.len(),
                crate::renderpass::string_views(names@) == written_names(ps@[i as int]),
                forall|i2: int, k2: int|
                    0 <= i2 < i && 0 <= k2 < written_names(ps@[i2]).len() ==> !duplicated(
                        ps@,
                        #[trigger] written_names(ps@[i2])[k2],
                    ),
                forall|k2: int| 0 <= k2 < k ==> !duplicated(ps@, #[trigger] written_names(ps@[i as int])[k2]),
            decreases names@.len() - k,
        {
            let ghost n = names@[k as int]@;
            assert(n == written_names(ps@[i as int])[k as int]);
            proof {
                lemma_written_name_produced(ps@[i as int], k as int);
            }
            let mut j: usize = 0;
            while j < ps.len()
                invariant
                    0 <= i < ps@.len(),
                    0 <= k < names@.len(),
                    n == names@[k as int]@,
                    0 <= k < written_names(ps@[i as int]).len(),
                    n == written_names(ps@[i as int])[k as int],
                    produces(ps@[i as int], n),
                    0 <= j <= ps@.len(),
                    forall|j2: int| 0 <= j2 < j && j2 != i ==> !produces(#[trigger] ps@[j2], n),
                    forall|i2: int, k2: int|
                        0 <= i2 < i && 0 <= k2 < written_names(ps@[i2]).len() ==> !duplicated(
                            ps@,
                            #[trigger] written_names(ps@[i2])[k2],
                        ),
                    forall|k2: int| 0 <= k2 < k ==> !duplicated(ps@, #[trigger] written_names(ps@[i as int])[k2]),
                decreases ps@.len() - j,
            {
                if j != i && produces_exec(&ps[j], &names[k]) {
                    assert(duplicated(ps@, n)) by {
                        assert(produces(ps@[i as int], n) && produces(ps@[j as int], n));
                    }
                    assert(has_duplicate_producer(ps@)) by {
                        assert(duplicated(ps@, written_names(ps@[i as int])[k as int]));
                    }
                    let nn = names[k].clone();
                    assert(first_duplicate(ps@, i as int, k as int));
                    assert(reports_first_duplicate(ps@, nn@));
                    return Err(GraphValidationError::DuplicateProducer(nn));
                }
                j = j + 1;
            }
            assert(!duplicated(ps@, n)) by {
                if duplicated(ps@, n) {
                    let (a, b) = choose|a: int, b: int|
                        0 <= a < ps@.len() && 0 <= b < ps@.len() && a != b && #[trigger] produces(ps@[a], n)
                            && #[trigger] produces(ps@[b], n);
                    if a != i {
                        assert(!produces(ps@[a], n));
                    } else {
                        assert(!produces(ps@[b], n));
                    }
                }
            }
            k = k + 1;
        }
        i = i + 1;
    }
    assert(!has_duplicate_producer(ps@)) by {
        if has_duplicate_producer(ps@) {
            let (i2, k2) = choose|i2: int, k2: int|
                0 <= i2 < ps@.len() && 0 <= k2 < written_names(ps@[i2]).len() && duplicated(
                    ps@,
                    #[trigger] written_names(ps@[i2])[k2],
                );
            assert(!duplicated(ps@, written_names(ps@[i2])[k2]));
        }
    }
    Ok(())
}

/// Input `k` of pass `b` (its color inputs, then its depth input) is not
/// written by any pass with the matching kind.
pub open spec fn input_dangles(ps: Seq<Renderpass>, b: int, k: int) -> bool {
    &&& 0 <= b < ps.len()
    &&& 0 <= k < read_names(ps[b].spec_data()).len()
    &&& if k < color_ins(ps[b]).len() {
        forall|a: int| 0 <= a < ps.len() ==> !produces_color(#[trigger] ps[a], read_names(ps[b].spec_data())[k])
    } else {
        forall|a: int| 0 <= a < ps.len() ==> !produces_depth(#[trigger] ps[a], read_names(ps[b].spec_data())[k])
    }
}

/// Input `k` of pass `b` is the first dangling input, in declaration order
/// of passes and then of inputs.
pub open spec fn first_dangling(ps: Seq<Renderpass>, b: int, k: int) -> bool {
    &&& input_dangles(ps, b, k)
    &&& forall|b2: int, k2: int| 0 <= b2 < b ==> !#[trigger] input_dangles(ps, b2, k2)
    &&& forall|k2: int| 0 <= k2 < k ==> !#[trigger] input_dangles(ps, b, k2)
}

/// `e` names the pass and the input of the first dangling input.
pub open spec fn reports_first_dangling(ps: Seq<Renderpass>, e: GraphValidationError) -> bool {
    match e {
        GraphValidationError::DanglingInput(p, n) => exists|b: int, k: int|
            #[trigger] first_dangling(ps, b, k) && pass_name(ps[b]) == p@ && read_names(ps[b].spec_data())[k] == n@,
        _ => false,
    }
}

/// `e` names a pass and an input of it that no pass writes.
pub open spec fn reports_dangling(ps: Seq<Renderpass>, e: GraphValidationError) -> bool {
    match e {
        GraphValidationError::DanglingInput(p, n) => exists|b: int|
            0 <= b < ps.len() && pass_name(ps[b]) == p@ && #[trigger] dangling(ps, b, n@),
        _ => false,
    }
}

fn some_color_producer(ps: &Vec<Renderpass>, n: &String) -> (r: bool)
    ensures
        r == exists|a: int| 0 <= a < ps@.len() && produces_color(#[trigger] ps@[a], n@),
{
    let mut a: usize = 0;
    while a < ps.len()
        invariant
            0 <= a <= ps@.len(),
            forall|a2: int| 0 <= a2 < a ==> !produces_color(#[trigger] ps@[a2], n@),
        decreases ps@.len() - a,
    {
        if produces_color_exec(&ps[a], n) {
            return true;
        }
        a = a + 1;
    }
    false
}

fn some_depth_producer(ps: &Vec<Renderpass>, n: &String) -> (r: bool)
    ensures
        r == exists|a: int| 0 <= a < ps@.len() && produces_depth(#[trigger] ps@[a], n@),
{
    let mut a: usize = 0;
    while a < ps.len()
        invariant
            0 <= a <= ps@.len(),
            forall|a2: int| 0 <= a2 < a ==> !produces_depth(#[trigger] ps@[a2], n@),
        decreases ps@.len() - a,
    {
        if produces_depth_exec(&ps[a], n) {
            return true;
        }
        a = a + 1;
    }
    false
}

/// Every input of every pass must be written by some pass, with the
/// matching kind. Passes are checked in order, color inputs before the
/// depth input.
fn check_inputs_resolved(ps: &Vec<Renderpass>) -> (r: Result<(), GraphValidationError>)
    ensures
        r is Ok <==> !has_dangling_input(ps@),
        r is Err ==> reports_dangling(ps@, r->Err_0) && reports_first_dangling(ps@, r->Err_0),
{
    let mut b: usize = 0;
    while b < ps.len()
        invariant
            0 <= b <= ps@.len(),
            forall|b2: int, n: Seq<char>| 0 <= b2 < b ==> !dangling(ps@, b2, n),
            forall|b2: int, k2: int| 0 <= b2 < b ==> !#[trigger] input_dangles(ps@, b2, k2),
        decreases ps@.len() - b,
    {
        let ins = ps[b].colorInputs();
        let ghost rn = read_names(ps@[b as int].spec_data());
        assert forall|k2: int| 0 <= k2 < ins@.len() implies rn[k2] == (#[trigger] ins@[k2]).name@ by {
            assert(rn[k2] == crate::renderpass::input_names(ins@)[k2]);
        }
        let mut k: usize = 0;
        while k < ins.len()
            invariant
                0 <= b < ps@.len(),
                0 <= k <= ins@.len(),
                ins@ == color_ins(ps@[b as int]),
                rn == read_names(ps@[b as int].spec_data()),
                rn.len() == ins@.len() + crate::renderpass::depth_input_names(ps@[b as int].spec_data().spec_depth_input()).len(),
                forall|k2: int| 0 <= k2 < ins@.len() ==> rn[k2] == (#[trigger] ins@[k2]).name@,
                forall|b2: int, n: Seq<char>| 0 <= b2 < b ==> !dangling(ps@, b2, n),
                forall|b2: int, k2: int| 0 <= b2 < b ==> !#[trigger] input_dangles(ps@, b2, k2),
                forall|k2: int| 0 <= k2 < k ==> !#[trigger] input_dangles(ps@, b as int, k2),
                forall|k2: int|
                    0 <= k2 < k ==> exists|a: int|
                        0 <= a < ps@.len() && produces_color(#[trigger] ps@[a], (#[trigger] ins@[k2]).name@),
            decreases ins@.len() - k,
        {
            if !some_color_producer(ps, &ins[k].name) {
                let pn = ps[b].name().clone();
                let nn = ins[k].name.clone();
                assert(dangling(ps@, b as int, nn@));
                assert(pass_name(ps@[b as int]) == pn@);
                assert(first_dangling(ps@, b as int, k as int));
                let e = GraphValidationError::DanglingInput(pn, nn);
                assert(reports_dangling(ps@, e)) by {
                    assert(e->DanglingInput_0 == pn && e->DanglingInput_1 == nn);
                    assert(0 <= b < ps@.len() && pass_name(ps@[b as int]) == pn@ && dangling(ps@, b as int, nn@));
                }
                assert(reports_first_dangling(ps@, e)) by {
                    assert(e->DanglingInput_0 == pn && e->DanglingInput_1 == nn);
                    assert(first_dangling(ps@, b as int, k as int) && pass_name(ps@[b as int]) == pn@ && rn[k as int] == nn@);
                }
                return Err(e);
            }
            assert(!input_dangles(ps@, b as int, k as int)) by {
                let a = choose|a: int| 0 <= a < ps@.len() && produces_color(#[trigger] ps@[a], ins@[k as int].name@);
            }
            k = k + 1;
        }
        if let Some(d) = ps[b].depthInput() {
            if !some_depth_producer(ps, &d.name) {
                let pn = ps[b].name().clone();
                let nn = d.name.clone();
                assert(dangling(ps@, b as int, nn@));
                assert(pass_name(ps@[b as int]) == pn@);
                let ghost kd = ins@.len() as int;
                assert(rn[kd] == d.name@);
                assert(first_dangling(ps@, b as int, kd));
                let e = GraphValidationError::DanglingInput(pn, nn);
                assert(reports_dangling(ps@, e)) by {
                    assert(e->DanglingInput_0 == pn && e->DanglingInput_1 == nn);
                    assert(0 <= b < ps@.len() && pass_name(ps@[b as int]) == pn@ && dangling(ps@, b as int, nn@));
                }
                assert(reports_first_dangling(ps@, e)) by {
                    assert(e->DanglingInput_0 == pn && e->DanglingInput_1 == nn);
                    assert(first_dangling(ps@, b as int, kd) && pass_name(ps@[b as int]) == pn@ && rn[kd] == nn@);
                }
                return Err(e);
            }
            assert(rn[ins@.len() as int] == d.name@);
            assert(!input_dangles(ps@, b as int, ins@.len() as int)) by {
                let a = choose|a: int| 0 <= a < ps@.len() && produces_depth(#[trigger] ps@[a], d.name@);
            }
        }
        assert forall|k2: int| true implies !#[trigger] input_dangles(ps@, b as int, k2) by {
            if 0 <= k2 < ins@.len() {
            } else if k2 == ins@.len() && rn.len() > k2 {
            }
        }
        assert forall|n: Seq<char>| !dangling(ps@, b as int, n) by {
            if exists|k2: int| 0 <= k2 < ins@.len() && (#[trigger] ins@[k2]).name@ == n {
                let k2 = choose|k2: int| 0 <= k2 < ins@.len() && (#[trigger] ins@[k2]).name@ == n;
                let a = choose|a: int| 0 <= a < ps@.len() && produces_color(#[trigger] ps@[a], ins@[k2].name@);
                assert(produces_color(ps@[a], n));
            }
        }
        b = b + 1;
    }
    Ok(())
}

/// The indices of a list of passes, as integers.
pub open spec fn ints(s: Seq<usize>) -> Seq<int> {
    s.map_values(|x: usize| x as int)
}

/// Every pass whose output pass `m` reads is marked as already placed.
pub open spec fn ready(ps: Seq<Renderpass>, placed: Seq<bool>, m: int) -> bool {
    forall|a: int| 0 <= a < ps.len() && #[trigger] edge(ps, a, m) ==> placed[a]
}

/// A list of distinct indices below `n` has at most `n` entries.
proof fn lemma_distinct_bound(s: Seq<usize>, n: usize)
    requires
        forall|k: int| 0 <= k < s.len() ==> (#[trigger] s[k]) < n,
        forall|i: int, j: int| 0 <= i < s.len() && 0 <= j < s.len() && i != j ==> s[i] != s[j],
    ensures
        s.len() <= n,
{
    broadcast use vstd::seq_lib::seq_to_set_is_finite;

    let t = ints(s);
    assert(t.no_duplicates()) by {
        assert forall|i: int, j: int| 0 <= i < t.len() && 0 <= j < t.len() && i != j implies t[i] != t[j] by {
            assert(s[i] != s[j]);
        }
    }
    t.unique_seq_to_set();
    lemma_int_range(0, n as int);
    assert forall|x: int| t.to_set().contains(x) implies set_int_range(0, n as int).contains(x) by {
        let k = choose|k: int| 0 <= k < t.len() && t[k] == x;
        assert(s[k] < n);
    }
    lemma_len_subset(t.to_set(), set_int_range(0, n as int));
}

/// A list of distinct indices that holds every index below `n` has at
/// least `n` entries.
proof fn lemma_covering_bound(s: Seq<usize>, n: usize)
    requires
        forall|i: int, j: int| 0 <= i < s.len() && 0 <= j < s.len() && i != j ==> s[i] != s[j],
        forall|x: usize| x < n ==> #[trigger] s.contains(x),
    ensures
        s.len() >= n,
{
    broadcast use vstd::seq_lib::seq_to_set_is_finite;

    let t = ints(s);
    assert(t.no_duplicates()) by {
        assert forall|i: int, j: int| 0 <= i < t.len() && 0 <= j < t.len() && i != j implies t[i] != t[j] by {
            assert(s[i] != s[j]);
        }
    }
    t.unique_seq_to_set();
    lemma_int_range(0, n as int);
    assert forall|x: int| set_int_range(0, n as int).contains(x) implies t.to_set().contains(x) by {
        assert(s.contains(x as usize));
        let k = choose|k: int| 0 <= k < s.len() && s[k] == x as usize;
        assert(t[k] == x);
    }
    lemma_len_subset(set_int_range(0, n as int), t.to_set());
}

fn is_ready(ps: &Vec<Renderpass>, placed: &Vec<bool>, m: usize) -> (r: bool)
    requires
        placed@.len() == ps@.len(),
        m < ps@.len(),
    ensures
        r == ready(ps@, placed@, m as int),
{
    let mut a: usize = 0;
    while a < ps.len()
        invariant
            placed@.len() == ps@.len(),
            m < ps@.len(),
            0 <= a <= ps@.len(),
            forall|a2: int| 0 <= a2 < a && #[trigger] edge(ps@, a2, m as int) ==> placed@[a2],
        decreases ps@.len() - a,
    {
        if !placed[a] && has_edge(ps, a, m) {
            return false;
        }
        a = a + 1;
    }
    true
}

/// A pass that is not placed and whose output pass `m` reads.
fn unplaced_producer(ps: &Vec<Renderpass>, placed: &Vec<bool>, m: usize) -> (r: usize)
    requires
        placed@.len() == ps@.len(),
        m < ps@.len(),
        !ready(ps@, placed@, m as int),
    ensures
        r < ps@.len(),
        edge(ps@, r as int, m as int),
        !placed@[r as int],
{
    let mut a: usize = 0;
    while a < ps.len()
        invariant
            placed@.len() == ps@.len(),
            m < ps@.len(),
            !ready(ps@, placed@, m as int),
            0 <= a <= ps@.len(),
            forall|a2: int| 0 <= a2 < a && #[trigger] edge(ps@, a2, m as int) ==> placed@[a2],
        decreases ps@.len() - a,
    {
        if !placed[a] && has_edge(ps, a, m) {
            return a;
        }
        a = a + 1;
    }
    proof {
        assert(ready(ps@, placed@, m as int));
    }
    0
}

/// The entries of `path` from `start` on, last first.
fn reversed_suffix(path: &Vec<usize>, start: usize) -> (r: Vec<usize>)
    requires
        start < path@.len(),
    ensures
        r@.len() == path@.len() - start,
        forall|k: int| 0 <= k < r@.len() ==> #[trigger] r@[k] == path@[path@.len() - 1 - k],
{
    let mut cycle: Vec<usize> = Vec::new();
    let mut j: usize = path.len();
    while j > start
        invariant
            start < path@.len(),
            start <= j <= path@.len(),
            cycle@.len() == path@.len() - j,
            forall|k: int| 0 <= k < cycle@.len() ==> #[trigger] cycle@[k] == path@[path@.len() - 1 - k],
        decreases j - start,
    {
        cycle.push(path[j - 1]);
        j = j - 1;
    }
    cycle
}

/// Walks from the unplaced pass `u` to an unplaced pass it depends on,
/// and on, until a pass repeats; the passes between the two visits form a
/// cycle.
#[verifier::rlimit(60)]
fn find_cycle(ps: &Vec<Renderpass>, placed: &Vec<bool>, u: usize) -> (r: Vec<usize>)
    requires
        placed@.len() == ps@.len(),
        u < ps@.len(),
        !placed@[u as int],
        forall|m: int| 0 <= m < ps@.len() && !placed@[m] ==> !ready(ps@, placed@, m),
    ensures
        is_cycle(ps@, ints(r@)),
        is_simple(ints(r@)),
        forall|k: int| 0 <= k < r@.len() ==> (#[trigger] r@[k]) < ps@.len(),
{
    let n = ps.len();
    let mut pos: Vec<usize> = Vec::new();
    let mut i: usize = 0;
    while i < n
        invariant
            n == ps@.len(),
            0 <= i <= n,
            pos@.len() == i,
            forall|x: int| 0 <= x < i ==> pos@[x] == n,
        decreases n - i,
    {
        pos.push(n);
        i = i + 1;
    }
    pos.set(u, 0);
    let mut path: Vec<usize> = Vec::new();
    path.push(u);
    loop
        invariant
            n == ps@.len(),
            placed@.len() == n,
            forall|m: int| 0 <= m < n && !placed@[m] ==> !ready(ps@, placed@, m),
            1 <= path@.len() <= n,
            pos@.len() == n,
            forall|k: int| 0 <= k < path@.len() ==> (#[trigger] path@[k]) < n && !placed@[path@[k] as int],
            forall|k: int| 0 <= k < path@.len() - 1 ==> edge(ps@, #[trigger] path@[k + 1] as int, path@[k] as int),
            forall|x: int| 0 <= x < n ==> (#[trigger] pos@[x]) == n || (pos@[x] < path@.len() && path@[pos@[x] as int] == x),
            forall|k: int| 0 <= k < path@.len() ==> pos@[#[trigger] path@[k] as int] == k,
        decreases n - path@.len(),
    {
        let cur = path[path.len() - 1];
        let a = unplaced_producer(ps, placed, cur);
        if pos[a] < n {
            let start = pos[a];
            let cycle = reversed_suffix(&path, start);
            proof {
                let c = ints(cycle@);
                let last = path@.len() - 1;
                assert(c.len() == last - start + 1);
                assert forall|k: int| 0 <= k < c.len() - 1 implies edge(ps@, #[trigger] c[k], c[k + 1]) by {
                    assert(c[k] == path@[last - k] as int);
                    assert(c[k + 1] == path@[last - k - 1] as int);
                    assert(edge(ps@, path@[(last - k - 1) + 1] as int, path@[last - k - 1] as int));
                }
                assert(c.last() == path@[start as int] as int);
                assert(c[0] == path@[last] as int);
                assert forall|a2: int, b2: int| 0 <= a2 < c.len() && 0 <= b2 < c.len() && a2 != b2 implies c[a2]
                    != c[b2] by {
                    assert(c[a2] == path@[last - a2] as int);
                    assert(c[b2] == path@[last - b2] as int);
                    assert(pos@[path@[last - a2] as int] == last - a2);
                    assert(pos@[path@[last - b2] as int] == last - b2);
                }
            }
            return cycle;
        }
        proof {
            assert forall|k: int| 0 <= k < path@.len() implies path@[k] != a by {
                assert(pos@[path@[k] as int] == k);
            }
            let next = path@.push(a);
            assert forall|i1: int, j1: int| 0 <= i1 < next.len() && 0 <= j1 < next.len() && i1 != j1 implies next[i1]
                != next[j1] by {
                if i1 < path@.len() && j1 < path@.len() {
                    assert(pos@[path@[i1] as int] == i1);
                    assert(pos@[path@[j1] as int] == j1);
                }
            }
            lemma_distinct_bound(next, n);
        }
        pos.set(a, path.len());
        path.push(a);
    }
}

proof fn lemma_earliest_step(ps: Seq<Renderpass>, o: Seq<usize>, placed: Seq<bool>, m: usize)
    requires
        placed.len() == ps.len(),
        ps.len() <= usize::MAX,
        forall|x: usize| x < ps.len() ==> (placed[x as int] <==> #[trigger] o.contains(x)),
        takes_earliest(ps, o),
        forall|m2: int| 0 <= m2 < m ==> placed[m2] || !ready(ps, placed, m2),
    ensures
        takes_earliest(ps, o.push(m)),
{
    let o2 = o.push(m);
    assert forall|k: int, x: int| 0 <= k <= o.len() implies placed_before(o2, k, x) == placed_before(o, k, x) by {
        if placed_before(o2, k, x) {
            let j = choose|j: int| 0 <= j < k && o2[j] as int == x;
            assert(o[j] == o2[j]);
        }
        if placed_before(o, k, x) {
            let j = choose|j: int| 0 <= j < k && o[j] as int == x;
            assert(o[j] == o2[j]);
        }
    }
    assert forall|x: int| 0 <= x < ps.len() implies placed[x] == placed_before(o, o.len() as int, x) by {
        if placed[x] {
            assert(o.contains(x as usize));
            let j = choose|j: int| 0 <= j < o.len() && o[j] == x as usize;
            assert(o[j] as int == x);
        }
        if placed_before(o, o.len() as int, x) {
            let j = choose|j: int| 0 <= j < o.len() && o[j] as int == x;
            assert(o[j] == x as usize);
            assert(o.contains(x as usize));
        }
    }
    assert forall|k: int, m2: int| 0 <= k < o2.len() && 0 <= m2 < o2[k] implies !#[trigger] runnable(ps, o2, k, m2) by {
        if k < o.len() {
            assert(o2[k] == o[k]);
            assert(!runnable(ps, o, k, m2));
            if runnable(ps, o2, k, m2) {
                assert(!placed_before(o, k, m2));
                assert forall|a: int| #[trigger] edge(ps, a, m2) implies placed_before(o, k, a) by {
                    assert(placed_before(o2, k, a));
                }
            }
        } else {
            assert(o2[k] == m);
            if runnable(ps, o2, k, m2) {
                assert(!placed_before(o, k, m2));
                assert(!placed[m2]);
                assert(!ready(ps, placed, m2));
                let a = choose|a: int| 0 <= a < ps.len() && #[trigger] edge(ps, a, m2) && !placed[a];
                assert(placed_before(o2, k, a));
                assert(placed_before(o, k, a));
            }
        }
    }
}

/// Orders the passes so that each runs after the passes whose outputs it
/// reads. At each step the earliest-declared pass that can run is taken,
/// so independent passes keep their declaration order and the same list
/// always gives the same order. When no pass can run, the passes left
/// depend on one another: a cycle among them is returned.
fn execution_order(ps: &Vec<Renderpass>) -> (r: Result<Vec<usize>, Vec<usize>>)
    ensures
        r matches Ok(o) ==> is_execution_order(ps@, o@) && takes_earliest(ps@, o@),
        r matches Err(c) ==> is_cycle(ps@, ints(c@)) && is_simple(ints(c@)) && forall|k: int|
            0 <= k < c@.len() ==> (#[trigger] c@[k]) < ps@.len(),
{
    let n = ps.len();
    let mut placed: Vec<bool> = Vec::new();
    let mut i: usize = 0;
    while i < n
        invariant
            n == ps@.len(),
            0 <= i <= n,
            placed@.len() == i,
            forall|x: int| 0 <= x < i ==> !placed@[x],
        decreases n - i,
    {
        placed.push(false);
        i = i + 1;
    }
    let mut order: Vec<usize> = Vec::new();
    while order.len() < n
        invariant
            n == ps@.len(),
            placed@.len() == n,
            order@.len() <= n,
            forall|k: int| 0 <= k < order@.len() ==> (#[trigger] order@[k]) < n,
            forall|i1: int, j1: int| 0 <= i1 < order@.len() && 0 <= j1 < order@.len() && i1 != j1 ==> order@[i1] != order@[j1],
            forall|x: usize| x < n ==> (placed@[x as int] <==> #[trigger] order@.contains(x)),
            forall|k: int, x: int|
                0 <= k < order@.len() && #[trigger] edge(ps@, x, order@[k] as int) ==> exists|j: int|
                    0 <= j < k && order@[j] == x,
            takes_earliest(ps@, order@),
        decreases n - order@.len(),
    {
        let mut pick: Option<usize> = None;
        let mut stuck: Option<usize> = None;
        let mut m: usize = 0;
        while m < n
            invariant_except_break
                pick is None,
            invariant
                n == ps@.len(),
                placed@.len() == n,
                0 <= m <= n,
                pick matches Some(p) ==> (p < n && !placed@[p as int] && ready(ps@, placed@, p as int) && forall|m2: int|
                    0 <= m2 < p ==> placed@[m2] || !ready(ps@, placed@, m2)),
                pick is None ==> forall|m2: int| 0 <= m2 < m ==> placed@[m2] || !ready(ps@, placed@, m2),
                stuck matches Some(u) ==> u < n && !placed@[u as int],
                pick is None && stuck is None ==> forall|m2: int| 0 <= m2 < m ==> placed@[m2],
            ensures
                pick matches Some(p) ==> (p < n && !placed@[p as int] && ready(ps@, placed@, p as int) && forall|m2: int|
                    0 <= m2 < p ==> placed@[m2] || !ready(ps@, placed@, m2)),
                pick is None ==> forall|m2: int| 0 <= m2 < n ==> placed@[m2] || !ready(ps@, placed@, m2),
                stuck matches Some(u) ==> u < n && !placed@[u as int],
                pick is None && stuck is None ==> forall|m2: int| 0 <= m2 < n ==> placed@[m2],
            decreases n - m,
        {
            if !placed[m] {
                if is_ready(ps, &placed, m) {
                    pick = Some(m);
                    break;
                }
                stuck = Some(m);
            }
            m = m + 1;
        }
        match pick {
            Some(m) => {
                let ghost old_order = order@;
                proof {
                    assert(!order@.contains(m));
                    let next = order@.push(m);
                    assert forall|k: int, x: int|
                        0 <= k < next.len() && #[trigger] edge(ps@, x, next[k] as int) implies exists|j: int|
                        0 <= j < k && next[j] == x by {
                        if k < order@.len() {
                            assert(next[k] == order@[k]);
                            let j = choose|j: int| 0 <= j < k && order@[j] == x;
                            assert(next[j] == x);
                        } else {
                            assert(placed@[x]);
                            assert(order@.contains(x as usize));
                            let j = choose|j: int| 0 <= j < order@.len() && order@[j] == x as usize;
                            assert(next[j] == x);
                        }
                    }
                }
                let ghost old_placed = placed@;
                placed.set(m, true);
                order.push(m);
                proof {
                    lemma_earliest_step(ps@, old_order, old_placed, m);
                }
                proof {
                    assert(order@ == old_order.push(m));
                    assert forall|x: usize| x < n implies (placed@[x as int] <==> #[trigger] order@.contains(x)) by {
                        if x != m {
                            assert(old_order.contains(x) <==> order@.contains(x)) by {
                                if order@.contains(x) {
                                    let k = choose|k: int| 0 <= k < order@.len() && order@[k] == x;
                                    assert(old_order[k] == x);
                                }
                                if old_order.contains(x) {
                                    let k = choose|k: int| 0 <= k < old_order.len() && old_order[k] == x;
                                    assert(order@[k] == x);
                                }
                            }
                        } else {
                            assert(order@[order@.len() - 1] == x);
                        }
                    }
                }
            },
            None => {
                match stuck {
                    Some(u) => {
                        return Err(find_cycle(ps, &placed, u));
                    },
                    None => {
                        proof {
                            assert forall|x: usize| x < n implies #[trigger] order@.contains(x) by {
                                assert(placed@[x as int]);
                            }
                            lemma_covering_bound(order@, n);
                        }
                        return Ok(order);
                    },
                }
            },
        }
    }
    proof {
        assert forall|i1: int, j1: int|
            0 <= i1 < order@.len() && 0 <= j1 < order@.len() && edge(ps@, #[trigger] order@[i1] as int, #[trigger] order@[j1] as int) implies i1 < j1 by {
            let j = choose|j: int| 0 <= j < j1 && order@[j] == order@[i1] as int;
            assert(j == i1);
        }
    }
    Ok(order)
}

/// `names` are the names of the passes of a cycle, in order, each pass
/// listed once.
pub open spec fn reports_cycle(ps: Seq<Renderpass>, names: Seq<String>) -> bool {
    exists|c: Seq<int>|
        #[trigger] is_cycle(ps, c) && is_simple(c) && names.len() == c.len() && forall|k: int|
            0 <= k < c.len() ==> 0 <= c[k] < ps.len() && (#[trigger] names[k])@ == pass_name(ps[c[k]])
}

/// What validating the passes `ps` gives: the first check that fails
/// decides the error, in the order screen output, single producers,
/// resolved inputs, acyclicity; when all pass, an execution order.
pub open spec fn validation_outcome(ps: Seq<Renderpass>, r: Result<Vec<usize>, GraphValidationError>) -> bool {
    if no_screen_output(ps) {
        r matches Err(GraphValidationError::NoScreenOutput)
    } else if several_screen_outputs(ps) {
        r matches Err(GraphValidationError::DuplicateProducer(n)) && n@ == SCREEN_OUTPUT@
    } else if has_duplicate_producer(ps) {
        r matches Err(GraphValidationError::DuplicateProducer(n)) && reports_first_duplicate(ps, n@)
    } else if has_dangling_input(ps) {
        r is Err && reports_dangling(ps, r->Err_0) && reports_first_dangling(ps, r->Err_0)
    } else {
        match r {
            Ok(o) => is_execution_order(ps, o@) && takes_earliest(ps, o@),
            Err(GraphValidationError::CyclicDependency(names)) => reports_cycle(ps, names@),
            _ => false,
        }
    }
}

/// Validates a whole set of passes and orders them. Fails with
/// `NoScreenOutput` when no pass writes the color output `SCREEN_OUTPUT`,
/// `DuplicateProducer` when two passes write one output (the screen output
/// included), `DanglingInput` for an input that no pass writes with the
/// matching kind, and `CyclicDependency` with the passes of a cycle.
/// Otherwise returns the indices of the passes in execution order.
pub fn validate(passes: &Vec<Renderpass>) -> (r: Result<Vec<usize>, GraphValidationError>)
    ensures
        validation_outcome(passes@, r),
{
    match check_screen_output(passes) {
        Ok(()) => {},
        Err(e) => return Err(e),
    }
    match check_single_producers(passes) {
        Ok(()) => {},
        Err(e) => return Err(e),
    }
    match check_inputs_resolved(passes) {
        Ok(()) => {},
        Err(e) => return Err(e),
    }
    match execution_order(passes) {
        Ok(o) => Ok(o),
        Err(c) => {
            let mut names: Vec<String> = Vec::new();
            let mut k: usize = 0;
            while k < c.len()
                invariant
                    0 <= k <= c@.len(),
                    names@.len() == k,
                    forall|j: int| 0 <= j < c@.len() ==> (#[trigger] c@[j]) < passes@.len(),
                    forall|j: int| 0 <= j < k ==> (#[trigger] names@[j])@ == pass_name(passes@[c@[j] as int]),
                decreases c@.len() - k,
            {
                names.push(passes[c[k]].name().clone());
                k = k + 1;
            }
            proof {
                let ci = ints(c@);
                assert(is_cycle(passes@, ci));
                assert(is_simple(ci));
                assert forall|j: int| 0 <= j < ci.len() implies 0 <= ci[j] < passes@.len() && (#[trigger] names@[j])@
                    == pass_name(passes@[ci[j]]) by {
                    assert(c@[j] < passes@.len());
                }
            }
            Err(GraphValidationError::CyclicDependency(names))
        },
    }
}

/// The screen-output rule: with no pass writing `SCREEN_OUTPUT` validation
/// fails with `NoScreenOutput`, with two it fails with
/// `DuplicateProducer("SCREEN_OUTPUT")`, and a graph of one pass that
/// writes it and reads nothing validates, that pass alone making the order.
pub proof fn lemma_screen_output_rule(ps: Seq<Renderpass>, r: Result<Vec<usize>, GraphValidationError>)
    requires
        validation_outcome(ps, r),
    ensures
        no_screen_output(ps) ==> r matches Err(GraphValidationError::NoScreenOutput),
        several_screen_outputs(ps) ==> (r matches Err(GraphValidationError::DuplicateProducer(n)) && n@ == SCREEN_OUTPUT@),
        ps.len() == 1 && screen_producer(ps, 0) && color_ins(ps[0]).len() == 0
            && ps[0].spec_data().spec_depth_input() is None ==> (r matches Ok(o) && o@ == seq![0usize]),
{
    if several_screen_outputs(ps) {
        let (i, j) = choose|i: int, j: int|
            0 <= i < ps.len() && 0 <= j < ps.len() && i != j && screen_producer(ps, i) && screen_producer(ps, j);
        assert(!no_screen_output(ps));
    }
    if ps.len() == 1 && screen_producer(ps, 0) && color_ins(ps[0]).len() == 0 && ps[0].spec_data().spec_depth_input() is None {
        assert(!no_screen_output(ps));
        assert(!several_screen_outputs(ps));
        assert(!has_duplicate_producer(ps)) by {
            if has_duplicate_producer(ps) {
                let (i, k) = choose|i: int, k: int|
                    0 <= i < ps.len() && 0 <= k < written_names(ps[i]).len() && duplicated(
                        ps,
                        #[trigger] written_names(ps[i])[k],
                    );
                let n = written_names(ps[i])[k];
                let (a, b) = choose|a: int, b: int|
                    0 <= a < ps.len() && 0 <= b < ps.len() && a != b && #[trigger] produces(ps[a], n)
                        && #[trigger] produces(ps[b], n);
            }
        }
        assert(!has_dangling_input(ps));
        let o = r->Ok_0;
        assert(o@.len() == 1 && o@[0] < 1);
        assert(o@ =~= seq![0usize]);
    }
}

/// Two passes that both write an output `n` make validation fail with
/// `DuplicateProducer(n)`, provided the screen-output rule holds and no
/// other name is written twice.
pub proof fn lemma_duplicate_producer_rule(
    ps: Seq<Renderpass>,
    i: int,
    j: int,
    n: Seq<char>,
    r: Result<Vec<usize>, GraphValidationError>,
)
    requires
        validation_outcome(ps, r),
        !no_screen_output(ps),
        !several_screen_outputs(ps),
        0 <= i < ps.len(),
        0 <= j < ps.len(),
        i != j,
        produces(ps[i], n),
        produces(ps[j], n),
        forall|m: Seq<char>| #[trigger] duplicated(ps, m) ==> m == n,
    ensures
        r matches Err(GraphValidationError::DuplicateProducer(m)) && m@ == n,
{
    assert(duplicated(ps, n));
    let k = if produces_color(ps[i], n) {
        let k = choose|k: int| 0 <= k < color_outs(ps[i]).len() && (#[trigger] color_outs(ps[i])[k]).name@ == n;
        assert(written_names(ps[i])[k] == n);
        k
    } else {
        let k = color_outs(ps[i]).len() as int;
        assert(written_names(ps[i])[k] == n);
        k
    };
    assert(has_duplicate_producer(ps));
}

/// A pass reading a color input `n` that no pass writes makes validation
/// fail with `DanglingInput` naming that pass and `n`, provided the checks
/// before it pass and no other input is dangling.
pub proof fn lemma_dangling_input_rule(
    ps: Seq<Renderpass>,
    b: int,
    k: int,
    r: Result<Vec<usize>, GraphValidationError>,
)
    requires
        validation_outcome(ps, r),
        !no_screen_output(ps),
        !several_screen_outputs(ps),
        !has_duplicate_producer(ps),
        0 <= b < ps.len(),
        0 <= k < color_ins(ps[b]).len(),
        forall|a: int| 0 <= a < ps.len() ==> !produces_color(#[trigger] ps[a], color_ins(ps[b])[k].name@),
        forall|b2: int, m: Seq<char>|
            #[trigger] dangling(ps, b2, m) ==> pass_name(ps[b2]) == pass_name(ps[b]) && m == color_ins(ps[b])[k].name@,
    ensures
        r matches Err(GraphValidationError::DanglingInput(p, m)) && p@ == pass_name(ps[b]) && m@ == color_ins(
            ps[b],
        )[k].name@,
{
    assert(dangling(ps, b, color_ins(ps[b])[k].name@));
    assert(has_dangling_input(ps));
    let e = r->Err_0;
    assert(reports_dangling(ps, e));
    let b2 = choose|b2: int| 0 <= b2 < ps.len() && pass_name(ps[b2]) == e->DanglingInput_0@ && #[trigger] dangling(ps, b2, e->DanglingInput_1@);
}

/// Every index below the length of an execution order appears in it.
proof fn lemma_order_covers(ps: Seq<Renderpass>, o: Seq<usize>, x: int)
    requires
        is_execution_order(ps, o),
        0 <= x < ps.len() <= usize::MAX,
    ensures
        exists|i: int| 0 <= i < o.len() && o[i] as int == x,
{
    if !(exists|i: int| 0 <= i < o.len() && o[i] as int == x) {
        let bound = (ps.len() - 1) as usize;
        let t = o.map_values(|v: usize| if v as int > x { (v - 1) as usize } else { v });
        assert forall|k: int| 0 <= k < t.len() implies (#[trigger] t[k]) < bound by {
            assert(o[k] < ps.len());
            assert(o[k] as int != x);
            assert(t[k] == if o[k] as int > x { (o[k] - 1) as usize } else { o[k] });
        }
        assert forall|a: int, b: int| 0 <= a < t.len() && 0 <= b < t.len() && a != b implies t[a] != t[b] by {
            assert(o[a] != o[b]);
            assert(o[a] as int != x && o[b] as int != x);
            assert(t[a] == if o[a] as int > x { (o[a] - 1) as usize } else { o[a] });
            assert(t[b] == if o[b] as int > x { (o[b] - 1) as usize } else { o[b] });
        }
        lemma_distinct_bound(t, bound);
    }
}

/// A graph with a cycle has no execution order: `CyclicDependency` is
/// reported exactly when no order exists.
pub proof fn lemma_cycle_excludes_order(ps: Seq<Renderpass>, c: Seq<int>, o: Seq<usize>)
    requires
        is_execution_order(ps, o),
        ps.len() <= usize::MAX,
    ensures
        !is_cycle(ps, c),
{
    if is_cycle(ps, c) {
        lemma_no_cycle_under_order(ps, c, o);
    }
}

proof fn lemma_no_cycle_under_order(ps: Seq<Renderpass>, c: Seq<int>, o: Seq<usize>)
    requires
        is_cycle(ps, c),
        is_execution_order(ps, o),
        ps.len() <= usize::MAX,
    ensures
        c.len() == 0,
{
    let pos = |x: int| choose|i: int| 0 <= i < o.len() && o[i] as int == x;
    assert forall|k: int| 0 <= k < c.len() implies 0 <= #[trigger] pos(c[k]) < o.len() && o[pos(c[k])] as int == c[k] by {
        if k < c.len() - 1 {
            assert(edge(ps, c[k], c[k + 1]));
        } else {
            assert(edge(ps, c.last(), c[0]));
        }
        lemma_order_covers(ps, o, c[k]);
    }
    assert forall|k: int| 0 <= k < c.len() implies pos(c[0]) <= #[trigger] pos(c[k]) by {
        lemma_cycle_positions(ps, c, o, pos, k);
    }
    assert(edge(ps, c.last(), c[0]));
    assert(edge(ps, o[pos(c.last())] as int, o[pos(c[0])] as int));
    assert(pos(c.last()) < pos(c[0]));
}

proof fn lemma_cycle_positions(ps: Seq<Renderpass>, c: Seq<int>, o: Seq<usize>, pos: spec_fn(int) -> int, k: int)
    requires
        is_cycle(ps, c),
        is_execution_order(ps, o),
        forall|k2: int| 0 <= k2 < c.len() ==> 0 <= #[trigger] pos(c[k2]) < o.len() && o[pos(c[k2])] as int == c[k2],
        0 <= k < c.len(),
    ensures
        pos(c[0]) <= pos(c[k]),
    decreases k,
{
    if k > 0 {
        lemma_cycle_positions(ps, c, o, pos, k - 1);
        assert(edge(ps, c[k - 1], c[k]));
        assert(edge(ps, o[pos(c[k - 1])] as int, o[pos(c[k])] as int));
    }
}

/// The `k`-th pass of an execution order could run after the passes before it.
proof fn lemma_next_is_runnable(ps: Seq<Renderpass>, o: Seq<usize>, k: int)
    requires
        is_execution_order(ps, o),
        ps.len() <= usize::MAX,
        0 <= k < o.len(),
    ensures
        runnable(ps, o, k, o[k] as int),
{
    assert(!placed_before(o, k, o[k] as int)) by {
        if placed_before(o, k, o[k] as int) {
            let j = choose|j: int| 0 <= j < k && o[j] as int == o[k] as int;
            assert(o[j] != o[k]);
        }
    }
    assert forall|a: int| #[trigger] edge(ps, a, o[k] as int) implies placed_before(o, k, a) by {
        lemma_order_covers(ps, o, a);
        let i = choose|i: int| 0 <= i < o.len() && o[i] as int == a;
        assert(edge(ps, o[i] as int, o[k] as int));
    }
}

/// Ordering is deterministic: there is only one execution order that takes
/// the earliest-declared runnable pass at every step, so validating an
/// unchanged list of passes always gives the same order.
pub proof fn lemma_order_is_unique(ps: Seq<Renderpass>, o1: Seq<usize>, o2: Seq<usize>)
    requires
        is_execution_order(ps, o1),
        takes_earliest(ps, o1),
        is_execution_order(ps, o2),
        takes_earliest(ps, o2),
        ps.len() <= usize::MAX,
    ensures
        o1 == o2,
{
    lemma_prefixes_agree(ps, o1, o2, o1.len() as int);
    assert(o1 =~= o2);
}

proof fn lemma_prefixes_agree(ps: Seq<Renderpass>, o1: Seq<usize>, o2: Seq<usize>, n: int)
    requires
        is_execution_order(ps, o1),
        takes_earliest(ps, o1),
        is_execution_order(ps, o2),
        takes_earliest(ps, o2),
        ps.len() <= usize::MAX,
        0 <= n <= o1.len(),
    ensures
        forall|j: int| 0 <= j < n ==> o1[j] == o2[j],
    decreases n,
{
    if n > 0 {
        let k = n - 1;
        lemma_prefixes_agree(ps, o1, o2, k);
        assert forall|x: int| placed_before(o1, k, x) == placed_before(o2, k, x) by {
            if placed_before(o1, k, x) {
                let j = choose|j: int| 0 <= j < k && o1[j] as int == x;
                assert(o2[j] == o1[j]);
            }
            if placed_before(o2, k, x) {
                let j = choose|j: int| 0 <= j < k && o2[j] as int == x;
                assert(o2[j] == o1[j]);
            }
        }
        lemma_next_is_runnable(ps, o1, k);
        lemma_next_is_runnable(ps, o2, k);
        let m1 = o1[k] as int;
        let m2 = o2[k] as int;
        assert(runnable(ps, o1, k, m1) == runnable(ps, o2, k, m1));
        assert(runnable(ps, o1, k, m2) == runnable(ps, o2, k, m2));
        if m1 < m2 {
            assert(!runnable(ps, o2, k, m1));
        } else if m2 < m1 {
            assert(!runnable(ps, o1, k, m2));
        }
    }
}

} // verus!
