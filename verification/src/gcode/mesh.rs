//! Which pieces make up the mesh of a block of tool path strokes, in what order, and where
//! its separate parts end.
//!
//! Each stroke is drawn as a box around it: the cross section at its start and at its end,
//! joined. Printed strokes that follow one another are joined at their cross sections; a
//! cross section closes a run of printed strokes where a stroke that is not printed follows
//! it, and the last stroke's end section closes the block.
use vstd::prelude::*;

verus! {

/// A piece of a block's mesh, by the strokes whose cross sections it is made of.
#[derive(Debug, Clone, Copy, PartialEq, Eq, Structural)]
pub enum MeshPiece {
    /// The cross section at the start of a stroke, facing back.
    StartCap(usize),
    /// The cross section at the end of a stroke, facing forward.
    EndCap(usize),
    /// The join between the end of one printed stroke and the start of the next.
    Connection(usize, usize),
    /// The box around a printed stroke.
    Segment(usize),
}

/// The number of vertices of a piece.
pub open spec fn piece_vertices(p: MeshPiece) -> nat {
    match p {
        MeshPiece::StartCap(_) => 6,
        MeshPiece::EndCap(_) => 6,
        MeshPiece::Connection(_, _) => 12,
        MeshPiece::Segment(_) => 24,
    }
}

/// How far the planning got: the pieces so far, their vertex count, the ends of the parts
/// closed so far, and the printed stroke whose end section is still open.
pub struct PlanView {
    pub pieces: Seq<MeshPiece>,
    pub count: nat,
    pub offsets: Seq<nat>,
    pub open: Option<usize>,
}

pub open spec fn add_piece(s: PlanView, p: MeshPiece) -> PlanView {
    PlanView { pieces: s.pieces.push(p), count: s.count + piece_vertices(p), ..s }
}

pub open spec fn close_part(s: PlanView) -> PlanView {
    PlanView { offsets: s.offsets.push(s.count), ..s }
}

/// Planning stroke `i` of `n`, which is printed or not.
pub open spec fn plan_step(s: PlanView, i: usize, n: nat, printed: bool) -> PlanView {
    let s1 = if i == n - 1 {
        close_part(add_piece(s, MeshPiece::EndCap(i)))
    } else {
        s
    };
    if printed {
        let s2 = match s1.open {
            Some(j) => add_piece(s1, MeshPiece::Connection(j, i)),
            None => add_piece(s1, MeshPiece::StartCap(i)),
        };
        PlanView { open: Some(i), ..add_piece(s2, MeshPiece::Segment(i)) }
    } else {
        match s1.open {
            Some(j) => PlanView { open: None, ..close_part(add_piece(s1, MeshPiece::EndCap(j))) },
            None => s1,
        }
    }
}

/// Planning the first `k` of the strokes whose print flags are `prints`.
pub open spec fn plan_upto(prints: Seq<bool>, k: nat) -> PlanView
    decreases k,
{
    if k == 0 {
        PlanView { pieces: seq![], count: 0, offsets: seq![], open: None }
    } else {
        plan_step(
            plan_upto(prints, (k - 1) as nat),
            (k - 1) as usize,
            prints.len(),
            prints[k - 1],
        )
    }
}

/// The plan of a block's mesh: its pieces in order, and the vertex count at the end of each
/// part.
pub struct MeshPlan {
    pub pieces: Vec<MeshPiece>,
    pub offsets: Vec<usize>,
}

/// Whether the vertex counts `v` are the counts `s`.
pub open spec fn counts_are(v: Seq<usize>, s: Seq<nat>) -> bool {
    v.len() == s.len() && forall|i: int| 0 <= i < v.len() ==> v[i] as nat == #[trigger] s[i]
}

proof fn lemma_plan_count_bound(prints: Seq<bool>, k: nat)
    requires
        k <= prints.len(),
    ensures
        plan_upto(prints, k).count <= 42 * k,
        plan_upto(prints, k).open matches Some(j) ==> j < k,
    decreases k,
{
    if k > 0 {
        lemma_plan_count_bound(prints, (k - 1) as nat);
    }
}

/// Law: the parts of a block's mesh end in order, each after at least one vertex more than
/// the one before, and within the vertices planned.
pub proof fn law_parts_end_in_order(prints: Seq<bool>, k: nat)
    requires
        k <= prints.len(),
    ensures
        forall|t: int|
            0 <= t < plan_upto(prints, k).offsets.len() - 1 ==> #[trigger] plan_upto(
                prints,
                k,
            ).offsets[t] < plan_upto(prints, k).offsets[t + 1],
        forall|t: int|
            0 <= t < plan_upto(prints, k).offsets.len() ==> #[trigger] plan_upto(
                prints,
                k,
            ).offsets[t] <= plan_upto(prints, k).count,
        plan_upto(prints, k).offsets.len() > 0 ==> plan_upto(prints, k).offsets.last() > 0,
    decreases k,
{
    if k > 0 {
        law_parts_end_in_order(prints, (k - 1) as nat);
        let s0 = plan_upto(prints, (k - 1) as nat);
        let s = plan_upto(prints, k);
        assert forall|t: int| 0 <= t < s.offsets.len() - 1 implies #[trigger] s.offsets[t]
            < s.offsets[t + 1] by {
            if t + 1 < s0.offsets.len() {
                assert(s.offsets[t] == s0.offsets[t]);
                assert(s.offsets[t + 1] == s0.offsets[t + 1]);
            } else if t < s0.offsets.len() {
                assert(s.offsets[t] == s0.offsets[t]);
            }
        }
        assert forall|t: int| 0 <= t < s.offsets.len() implies #[trigger] s.offsets[t]
            <= s.count by {
            if t < s0.offsets.len() {
                assert(s.offsets[t] == s0.offsets[t]);
            }
        }
    }
}

/// Plans the mesh of a block whose strokes are printed as `prints` says.
pub fn plan_path_mesh(prints: &Vec<bool>) -> (r: MeshPlan)
    requires
        42 * prints@.len() <= usize::MAX,
    ensures
        r.pieces@ == plan_upto(prints@, prints@.len()).pieces,
        counts_are(r.offsets@, plan_upto(prints@, prints@.len()).offsets),
{
    let n = prints.len();
    let mut pieces: Vec<MeshPiece> = Vec::new();
    let mut offsets: Vec<usize> = Vec::new();
    let mut count: usize = 0;
    let mut open: Option<usize> = None;
    let mut i: usize = 0;
    while i < n
        invariant
            i <= n,
            n == prints@.len(),
            42 * n <= usize::MAX,
            ({
                let s = plan_upto(prints@, i as nat);
                &&& pieces@ == s.pieces
                &&& count as nat == s.count
                &&& counts_are(offsets@, s.offsets)
                &&& open == s.open
            }),
        decreases n - i,
    {
        proof {
            lemma_plan_count_bound(prints@, i as nat);
        }
        if i == n - 1 {
            pieces.push(MeshPiece::EndCap(i));
            count = count + 6;
            offsets.push(count);
        }
        if prints[i] {
            match open {
                Some(j) => {
                    pieces.push(MeshPiece::Connection(j, i));
                    count = count + 12;
                },
                None => {
                    pieces.push(MeshPiece::StartCap(i));
                    count = count + 6;
                },
            }
            pieces.push(MeshPiece::Segment(i));
            count = count + 24;
            open = Some(i);
        } else {
            match open {
                Some(j) => {
                    pieces.push(MeshPiece::EndCap(j));
                    count = count + 6;
                    offsets.push(count);
                    open = None;
                },
                None => {},
            }
        }
        proof {
            let s = plan_upto(prints@, (i + 1) as nat);
            assert(pieces@ =~= s.pieces);
            assert(offsets@.len() == s.offsets.len());
            assert forall|t: int| 0 <= t < offsets@.len() implies offsets@[t] as nat
                == #[trigger] s.offsets[t] by {
                let s0 = plan_upto(prints@, i as nat);
                if t < s0.offsets.len() {
                    assert(s.offsets[t] == s0.offsets[t]);
                }
            }
        }
        i = i + 1;
    }
    MeshPlan { pieces, offsets }
}

/// Whether the stroke before stroke `i` is printed.
pub open spec fn after_printed(prints: Seq<bool>, i: int) -> bool {
    i > 0 && prints[i - 1]
}

/// The pieces that stroke `i` brings to its block's mesh. The last stroke first brings the
/// end section that closes the block. A printed stroke brings its box, after the join with
/// the printed stroke before it or, where it starts a run, its start section. A stroke that
/// is not printed brings the end section of the run of printed strokes that it ends.
pub open spec fn stroke_pieces(prints: Seq<bool>, i: int) -> Seq<MeshPiece> {
    let closing: Seq<MeshPiece> = if i == prints.len() - 1 {
        seq![MeshPiece::EndCap(i as usize)]
    } else {
        seq![]
    };
    let own: Seq<MeshPiece> = if prints[i] {
        seq![
            if after_printed(prints, i) {
                MeshPiece::Connection((i - 1) as usize, i as usize)
            } else {
                MeshPiece::StartCap(i as usize)
            },
            MeshPiece::Segment(i as usize),
        ]
    } else if after_printed(prints, i) {
        seq![MeshPiece::EndCap((i - 1) as usize)]
    } else {
        seq![]
    };
    closing + own
}

/// The pieces that the first `k` strokes bring, in order.
pub open spec fn pieces_through(prints: Seq<bool>, k: nat) -> Seq<MeshPiece>
    decreases k,
{
    if k == 0 {
        seq![]
    } else {
        pieces_through(prints, (k - 1) as nat) + stroke_pieces(prints, k - 1)
    }
}

/// The number of vertices of some pieces.
pub open spec fn total_vertices(ps: Seq<MeshPiece>) -> nat
    decreases ps.len(),
{
    if ps.len() == 0 {
        0
    } else {
        total_vertices(ps.drop_last()) + piece_vertices(ps.last())
    }
}

/// The vertex count after each end section among some pieces, in order: where the parts
/// of a mesh made of them end.
pub open spec fn end_cap_totals(ps: Seq<MeshPiece>) -> Seq<nat>
    decreases ps.len(),
{
    if ps.len() == 0 {
        seq![]
    } else if ps.last() is EndCap {
        end_cap_totals(ps.drop_last()).push(total_vertices(ps))
    } else {
        end_cap_totals(ps.drop_last())
    }
}

/// Whether a plan's count and part ends are those of its pieces.
pub open spec fn plan_consistent(s: PlanView) -> bool {
    &&& s.count == total_vertices(s.pieces)
    &&& s.offsets == end_cap_totals(s.pieces)
}

proof fn lemma_add_piece(s: PlanView, p: MeshPiece)
    requires
        plan_consistent(s),
    ensures
        !(p is EndCap) ==> plan_consistent(add_piece(s, p)),
        p is EndCap ==> plan_consistent(close_part(add_piece(s, p))),
{
    assert(s.pieces.push(p).drop_last() =~= s.pieces);
}

proof fn lemma_plan_closed_form(prints: Seq<bool>, k: nat)
    requires
        k <= prints.len(),
        prints.len() <= usize::MAX,
    ensures
        plan_upto(prints, k).pieces == pieces_through(prints, k),
        plan_consistent(plan_upto(prints, k)),
        plan_upto(prints, k).open == if after_printed(prints, k as int) {
            Some((k - 1) as usize)
        } else {
            None::<usize>
        },
    decreases k,
{
    if k > 0 {
        let i = (k - 1) as int;
        lemma_plan_closed_form(prints, (k - 1) as nat);
        let s = plan_upto(prints, (k - 1) as nat);
        let n = prints.len();
        let s1 = if i == n - 1 {
            close_part(add_piece(s, MeshPiece::EndCap(i as usize)))
        } else {
            s
        };
        lemma_add_piece(s, MeshPiece::EndCap(i as usize));
        assert(plan_consistent(s1));
        if prints[i] {
            let p = match s1.open {
                Some(j) => MeshPiece::Connection(j, i as usize),
                None => MeshPiece::StartCap(i as usize),
            };
            lemma_add_piece(s1, p);
            lemma_add_piece(add_piece(s1, p), MeshPiece::Segment(i as usize));
        } else {
            match s1.open {
                Some(j) => {
                    lemma_add_piece(s1, MeshPiece::EndCap(j));
                },
                None => {},
            }
        }
        let closing: Seq<MeshPiece> = if i == n - 1 {
            seq![MeshPiece::EndCap(i as usize)]
        } else {
            seq![]
        };
        assert(s1.pieces =~= s.pieces + closing);
        assert(s1.open == s.open);
        let t = plan_upto(prints, k);
        assert(t == plan_step(s, i as usize, n, prints[i]));
        let own = stroke_pieces(prints, i).skip(closing.len() as int);
        assert(stroke_pieces(prints, i) =~= closing + own);
        if prints[i] {
            if after_printed(prints, i) {
                assert(own =~= seq![
                    MeshPiece::Connection((i - 1) as usize, i as usize),
                    MeshPiece::Segment(i as usize),
                ]);
            } else {
                assert(own =~= seq![MeshPiece::StartCap(i as usize), MeshPiece::Segment(i as usize)]);
            }
        } else if after_printed(prints, i) {
            assert(own =~= seq![MeshPiece::EndCap((i - 1) as usize)]);
        } else {
            assert(own =~= Seq::<MeshPiece>::empty());
        }
        assert(t.pieces =~= s1.pieces + own);
        assert(pieces_through(prints, k) == s.pieces + stroke_pieces(prints, i));
        assert(t.pieces =~= pieces_through(prints, k));
    }
}

/// Law: the pieces of a block's mesh are those that its strokes bring, stroke by stroke (see
/// [`stroke_pieces`]); its vertex count is theirs; and its parts end exactly after each end
/// section.
pub proof fn law_plan_pieces(prints: Seq<bool>)
    requires
        prints.len() <= usize::MAX,
    ensures
        plan_upto(prints, prints.len()).pieces == pieces_through(prints, prints.len()),
        plan_upto(prints, prints.len()).count == total_vertices(
            plan_upto(prints, prints.len()).pieces,
        ),
        plan_upto(prints, prints.len()).offsets == end_cap_totals(
            plan_upto(prints, prints.len()).pieces,
        ),
{
    lemma_plan_closed_form(prints, prints.len());
}

proof fn lemma_pieces_prefix(prints: Seq<bool>, m: nat, k: nat)
    requires
        m <= k <= prints.len(),
    ensures
        pieces_through(prints, m).len() <= pieces_through(prints, k).len(),
        pieces_through(prints, k).take(pieces_through(prints, m).len() as int) == pieces_through(
            prints,
            m,
        ),
    decreases k,
{
    if m < k {
        lemma_pieces_prefix(prints, m, (k - 1) as nat);
        let a = pieces_through(prints, (k - 1) as nat);
        let b = pieces_through(prints, k);
        let l = pieces_through(prints, m).len() as int;
        assert(b.take(l) =~= a.take(l));
    } else {
        assert(pieces_through(prints, k).take(pieces_through(prints, k).len() as int)
            =~= pieces_through(prints, k));
    }
}

/// Where piece `r` of stroke `i` stands among the pieces of the whole block.
proof fn lemma_stroke_piece_at(prints: Seq<bool>, i: int, r: int)
    requires
        0 <= i < prints.len(),
        0 <= r < stroke_pieces(prints, i).len(),
    ensures
        pieces_through(prints, i as nat).len() + r < pieces_through(prints, prints.len()).len(),
        pieces_through(prints, prints.len())[pieces_through(prints, i as nat).len() + r]
            == stroke_pieces(prints, i)[r],
        pieces_through(prints, prints.len()).take(pieces_through(prints, i as nat).len() + r + 1)
            == pieces_through(prints, i as nat) + stroke_pieces(prints, i).take(r + 1),
{
    let whole = pieces_through(prints, prints.len());
    let upto = pieces_through(prints, (i + 1) as nat);
    let pre = pieces_through(prints, i as nat);
    lemma_pieces_prefix(prints, (i + 1) as nat, prints.len());
    assert(upto == pre + stroke_pieces(prints, i));
    assert(whole.take(upto.len() as int) == upto);
    assert(whole[pre.len() + r] == whole.take(upto.len() as int)[pre.len() + r]);
    assert(whole.take(pre.len() + r + 1) =~= upto.take(pre.len() + r + 1));
    assert(upto.take(pre.len() + r + 1) =~= pre + stroke_pieces(prints, i).take(r + 1));
}

proof fn lemma_end_cap_counted(ps: Seq<MeshPiece>, t: int)
    requires
        0 <= t < ps.len(),
        ps[t] is EndCap,
    ensures
        end_cap_totals(ps).contains(total_vertices(ps.take(t + 1))),
    decreases ps.len(),
{
    if t == ps.len() - 1 {
        assert(ps.take(t + 1) =~= ps);
        let e = end_cap_totals(ps);
        assert(e.last() == total_vertices(ps));
        assert(e[e.len() - 1] == total_vertices(ps));
    } else {
        let d = ps.drop_last();
        assert(d[t] == ps[t]);
        assert(d.take(t + 1) =~= ps.take(t + 1));
        lemma_end_cap_counted(d, t);
        let w = total_vertices(ps.take(t + 1));
        let ed = end_cap_totals(d);
        let u = choose|u: int| 0 <= u < ed.len() && ed[u] == w;
        if ps.last() is EndCap {
            assert(end_cap_totals(ps)[u] == w);
        } else {
            assert(end_cap_totals(ps)[u] == w);
        }
    }
}

/// Law: every run of printed strokes is closed. Where stroke `j` is printed and the stroke
/// after it is not, or it is the last stroke, the block's mesh holds the end section of
/// stroke `j`, and a part of the mesh ends right after it.
pub proof fn law_printed_runs_closed(prints: Seq<bool>, j: int)
    requires
        prints.len() <= usize::MAX,
        0 <= j < prints.len(),
        prints[j],
        j == prints.len() - 1 || !prints[j + 1],
    ensures
        ({
            let plan = plan_upto(prints, prints.len());
            exists|t: int|
                0 <= t < plan.pieces.len() && plan.pieces[t] == MeshPiece::EndCap(j as usize)
                    && plan.offsets.contains(total_vertices(plan.pieces.take(t + 1)))
        }),
{
    lemma_plan_closed_form(prints, prints.len());
    let plan = plan_upto(prints, prints.len());
    let (i, r) = if j == prints.len() - 1 {
        (j, 0int)
    } else {
        (j + 1, if j + 1 == prints.len() - 1 {
            1int
        } else {
            0int
        })
    };
    assert(stroke_pieces(prints, i)[r] == MeshPiece::EndCap(j as usize));
    lemma_stroke_piece_at(prints, i, r);
    let t = pieces_through(prints, i as nat).len() + r;
    lemma_end_cap_counted(plan.pieces, t);
}

/// Law: every printed stroke is drawn as a box, joined to the printed stroke before it where
/// there is one, and opened with its start section where it starts a run of printed strokes.
pub proof fn law_printed_strokes_drawn(prints: Seq<bool>, i: int)
    requires
        prints.len() <= usize::MAX,
        0 <= i < prints.len(),
        prints[i],
    ensures
        plan_upto(prints, prints.len()).pieces.contains(MeshPiece::Segment(i as usize)),
        i > 0 && prints[i - 1] ==> plan_upto(prints, prints.len()).pieces.contains(
            MeshPiece::Connection((i - 1) as usize, i as usize),
        ),
        !(i > 0 && prints[i - 1]) ==> plan_upto(prints, prints.len()).pieces.contains(
            MeshPiece::StartCap(i as usize),
        ),
{
    lemma_plan_closed_form(prints, prints.len());
    let pieces = plan_upto(prints, prints.len()).pieces;
    let c: int = if i == prints.len() - 1 {
        1
    } else {
        0
    };
    lemma_stroke_piece_at(prints, i, c);
    lemma_stroke_piece_at(prints, i, c + 1);
    let pre = pieces_through(prints, i as nat).len();
    assert(pieces[pre + c + 1] == MeshPiece::Segment(i as usize));
    assert(pieces[pre + c] == if i > 0 && prints[i - 1] {
        MeshPiece::Connection((i - 1) as usize, i as usize)
    } else {
        MeshPiece::StartCap(i as usize)
    });
}

} // verus!
