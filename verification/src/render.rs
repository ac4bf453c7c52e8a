//! The image renderer: a counter value is zero-padded to the fixed slot
//! count, each digit with a glyph in the theme yields a placement at a fixed
//! horizontal offset, and each distinct glyph identifier used yields one
//! definition. The result is serialized as a vector image document.

use vstd::prelude::*;
use vstd::string::StringExecFns;
use crate::numfmt::{spec_pad7, spec_dec, spec_digits, pad7, to_decimal};
use crate::theme::Theme;

verus! {

/// Width of one digit slot; every glyph is placed 45 wide and 100 high on a
/// canvas of `PAD_LENGTH` slots.
pub const IMG_WIDTH: u32 = 45;

/// Powers of ten.
pub open spec fn pow10(k: nat) -> nat
    decreases k,
{
    if k == 0 {
        1
    } else {
        10 * pow10((k - 1) as nat)
    }
}

/// A number below `pow10(k)` has at most `k` decimal digits.
proof fn lemma_digits_len_below(n: u64, k: nat)
    requires
        k >= 1,
        (n as nat) < pow10(k),
    ensures
        spec_digits(n).len() <= k,
    decreases n,
{
    if n >= 10 {
        assert(pow10(k) == 10 * pow10((k - 1) as nat));
        assert((n as nat) / 10 < pow10((k - 1) as nat)) by (nonlinear_arith)
            requires
                (n as nat) < 10 * pow10((k - 1) as nat),
        ;
        lemma_digits_len_below(n / 10, (k - 1) as nat);
    }
}

/// No value has more than twenty digit slots.
pub proof fn lemma_pad7_len(count: u64)
    ensures
        spec_pad7(count).len() <= 20,
        spec_digits(count).len() <= 20,
{
    assert(pow10(20) == 100000000000000000000) by {
        reveal_with_fuel(pow10, 21);
    }
    lemma_digits_len_below(count, 20);
}

/// The placements for digit values `ds` under the digit index `dmap`: the
/// position of each digit that has a glyph, left to right, at horizontal
/// offset position times `IMG_WIDTH`; a position without a glyph is omitted.
pub open spec fn spec_placements(dmap: Seq<Option<usize>>, ds: Seq<u64>) -> Seq<(u64, usize)>
    recommends
        dmap.len() == 10,
        forall|k: int| 0 <= k < ds.len() ==> ds[k] < 10,
    decreases ds.len(),
{
    if ds.len() == 0 {
        Seq::empty()
    } else {
        spec_placements(dmap, ds.drop_last()) + (match dmap[ds.last() as int] {
            Some(id) => seq![(((ds.len() - 1) * IMG_WIDTH) as u64, id)],
            None => Seq::empty(),
        })
    }
}

/// The glyph identifiers a rendering defines: each identifier placed, in
/// first-use order, each exactly once.
pub open spec fn spec_defs(ps: Seq<(u64, usize)>) -> Seq<usize>
    decreases ps.len(),
{
    if ps.len() == 0 {
        Seq::empty()
    } else {
        let rest = spec_defs(ps.drop_last());
        if rest.contains(ps.last().1) {
            rest
        } else {
            rest.push(ps.last().1)
        }
    }
}

/// The defined identifiers are exactly the placed ones.
pub proof fn lemma_defs_complete(ps: Seq<(u64, usize)>)
    ensures
        forall|id: usize|
            spec_defs(ps).contains(id) <==> exists|k: int| 0 <= k < ps.len() && ps[k].1 == id,
    decreases ps.len(),
{
    if ps.len() > 0 {
        lemma_defs_complete(ps.drop_last());
        assert forall|id: usize|
            spec_defs(ps).contains(id) <==> exists|k: int| 0 <= k < ps.len() && ps[k].1 == id by {
            let rest = spec_defs(ps.drop_last());
            if spec_defs(ps).contains(id) {
                if rest.contains(id) {
                    let k = choose|k: int|
                        0 <= k < ps.drop_last().len() && ps.drop_last()[k].1 == id;
                    assert(ps[k].1 == id);
                } else {
                    assert(ps[ps.len() - 1].1 == id);
                }
            }
            if exists|k: int| 0 <= k < ps.len() && ps[k].1 == id {
                let k = choose|k: int| 0 <= k < ps.len() && ps[k].1 == id;
                if k < ps.len() - 1 {
                    assert(ps.drop_last()[k].1 == id);
                    assert(rest.contains(id));
                    if !rest.contains(ps.last().1) {
                        assert(rest.push(ps.last().1).contains(id)) by {
                            let j = choose|j: int| 0 <= j < rest.len() && rest[j] == id;
                            assert(rest.push(ps.last().1)[j] == id);
                        }
                    }
                } else {
                    if !rest.contains(ps.last().1) {
                        assert(rest.push(id)[rest.len() as int] == id);
                    }
                }
            }
        }
    }
}

/// Each glyph definition is emitted once: the defined identifiers are
/// pairwise distinct.
pub proof fn lemma_defs_distinct(ps: Seq<(u64, usize)>)
    ensures
        forall|i: int, j: int|
            0 <= i < j < spec_defs(ps).len() ==> spec_defs(ps)[i] != spec_defs(ps)[j],
    decreases ps.len(),
{
    if ps.len() > 0 {
        lemma_defs_distinct(ps.drop_last());
        let rest = spec_defs(ps.drop_last());
        if !rest.contains(ps.last().1) {
            assert forall|i: int, j: int|
                0 <= i < j < spec_defs(ps).len() implies spec_defs(ps)[i] != spec_defs(ps)[j] by {
                if j == spec_defs(ps).len() - 1 {
                    assert(spec_defs(ps)[i] == rest[i]);
                    assert(rest.contains(rest[i])) by {
                        assert(0 <= i < rest.len());
                    }
                }
            }
        }
    }
}

/// Rendering is deterministic: one theme index and one value give one
/// placement sequence.
pub proof fn lemma_render_deterministic(
    dmap: Seq<Option<usize>>,
    v: u64,
    a: Seq<(u64, usize)>,
    b: Seq<(u64, usize)>,
)
    requires
        a == spec_placements(dmap, spec_pad7(v)),
        b == spec_placements(dmap, spec_pad7(v)),
    ensures
        a == b,
{
}

/// A position whose digit has a glyph yields its placement.
proof fn lemma_placement_at(dmap: Seq<Option<usize>>, ds: Seq<u64>, k: int)
    requires
        dmap.len() == 10,
        forall|a: int| 0 <= a < ds.len() ==> ds[a] < 10,
        0 <= k < ds.len(),
        dmap[ds[k] as int] is Some,
    ensures
        spec_placements(dmap, ds).contains(
            (((k * IMG_WIDTH) as u64, dmap[ds[k] as int]->Some_0)),
        ),
    decreases ds.len(),
{
    let ps = spec_placements(dmap, ds);
    let p = ((k * IMG_WIDTH) as u64, dmap[ds[k] as int]->Some_0);
    if k == ds.len() - 1 {
        assert(ps[ps.len() - 1] == p);
    } else {
        lemma_placement_at(dmap, ds.drop_last(), k);
        let prefix = spec_placements(dmap, ds.drop_last());
        let a = choose|a: int| 0 <= a < prefix.len() && prefix[a] == p;
        assert(ps[a] == p);
    }
}

/// Byte-identical glyph files collapse: when two placed digits of a
/// well-formed theme carry the same reference, the rendering holds one shared
/// glyph definition, defined once, and a placement for each of the two
/// positions referencing it independently.
pub proof fn lemma_shared_glyph_one_definition(t: &Theme, v: u64, i: int, j: int)
    requires
        t.wf(),
        0 <= i < spec_pad7(v).len(),
        0 <= j < spec_pad7(v).len(),
        t.digits@[spec_pad7(v)[i] as int] is Some,
        t.digits@[spec_pad7(v)[j] as int] is Some,
        t.uris@[t.digits@[spec_pad7(v)[i] as int]->Some_0 as int]@ == t.uris@[t.digits@[spec_pad7(
            v,
        )[j] as int]->Some_0 as int]@,
    ensures
        ({
            let ps = spec_placements(t.digits@, spec_pad7(v));
            let id = t.digits@[spec_pad7(v)[i] as int]->Some_0;
            &&& t.digits@[spec_pad7(v)[j] as int]->Some_0 == id
            &&& ps.contains((((i * IMG_WIDTH) as u64, id)))
            &&& ps.contains((((j * IMG_WIDTH) as u64, id)))
            &&& spec_defs(ps).contains(id)
            &&& forall|a: int, b: int|
                0 <= a < b < spec_defs(ps).len() ==> spec_defs(ps)[a] != spec_defs(ps)[b]
        }),
{
    crate::numfmt::lemma_pad7_bounded(v);
    crate::theme::lemma_dedup_shared_definition(
        t,
        spec_pad7(v)[i] as int,
        spec_pad7(v)[j] as int,
    );
    lemma_placement_at(t.digits@, spec_pad7(v), i);
    lemma_placement_at(t.digits@, spec_pad7(v), j);
    let ps = spec_placements(t.digits@, spec_pad7(v));
    let id = t.digits@[spec_pad7(v)[i] as int]->Some_0;
    lemma_defs_complete(ps);
    assert(spec_defs(ps).contains(id)) by {
        let a = choose|a: int| 0 <= a < ps.len() && ps[a] == (((i * IMG_WIDTH) as u64, id));
        assert(ps[a].1 == id);
    }
    lemma_defs_distinct(ps);
}

/// The ephemeral document of one rendering: the placements in position
/// order and the identifiers to define, in first-use order.
pub struct RenderedImage {
    /// Glyph placements: horizontal offset and identifier, position order.
    pub placements: Vec<(u64, usize)>,
    /// Identifiers of the glyph definitions this rendering needs.
    pub defs: Vec<usize>,
}

/// Whether a slice of identifiers holds `x`.
fn defs_contain(v: &Vec<usize>, x: usize) -> (r: bool)
    ensures
        r == v@.contains(x),
{
    let mut i: usize = 0;
    while i < v.len()
        invariant
            i <= v@.len(),
            forall|k: int| 0 <= k < i ==> v@[k] != x,
        decreases v@.len() - i,
    {
        if v[i] == x {
            return true;
        }
        i = i + 1;
    }
    proof {
        if v@.contains(x) {
            let k = choose|k: int| 0 <= k < v@.len() && v@[k] == x;
            assert(false);
        }
    }
    false
}

/// Render a counter value through a theme's digit index into a document.
pub fn render(t: &Theme, count: u64) -> (r: RenderedImage)
    requires
        t.wf(),
    ensures
        r.placements@ == spec_placements(t.digits@, spec_pad7(count)),
        r.defs@ == spec_defs(r.placements@),
        forall|k: int| 0 <= k < r.defs@.len() ==> r.defs@[k] < t.uris@.len(),
{
    let ds = pad7(count);
    let mut placements: Vec<(u64, usize)> = Vec::new();
    let mut defs: Vec<usize> = Vec::new();
    let mut i: usize = 0;
    proof {
        assert(ds@.take(0) =~= Seq::<u64>::empty());
    }
    while i < ds.len()
        invariant
            t.wf(),
            i <= ds@.len(),
            ds@ == spec_pad7(count),
            forall|k: int| 0 <= k < ds@.len() ==> ds@[k] < 10,
            placements@ == spec_placements(t.digits@, ds@.take(i as int)),
            defs@ == spec_defs(placements@),
            forall|k: int| 0 <= k < placements@.len() ==> placements@[k].1 < t.uris@.len(),
            forall|k: int| 0 <= k < defs@.len() ==> defs@[k] < t.uris@.len(),
        decreases ds@.len() - i,
    {
        let ghost ps0 = placements@;
        let d = ds[i];
        proof {
            lemma_pad7_len(count);
            assert(ds@.take(i as int + 1).drop_last() =~= ds@.take(i as int));
            assert(ds@.take(i as int + 1).last() == ds@[i as int]);
        }
        match t.digits[d as usize] {
            None => {
                proof {
                    assert(placements@ =~= spec_placements(t.digits@, ds@.take(i as int + 1)));
                }
            },
            Some(id) => {
                let x: u64 = (i as u64) * (IMG_WIDTH as u64);
                placements.push((x, id));
                proof {
                    assert(placements@ =~= spec_placements(t.digits@, ds@.take(i as int + 1)));
                }
                if !defs_contain(&defs, id) {
                    defs.push(id);
                }
                proof {
                    assert(placements@.drop_last() =~= ps0);
                    assert(defs@ =~= spec_defs(placements@));
                }
            },
        }
        i = i + 1;
    }
    proof {
        assert(ds@.take(ds@.len() as int) =~= ds@);
    }
    RenderedImage { placements, defs }
}

/// The text of one placement.
pub open spec fn spec_use_elem(p: (u64, usize)) -> Seq<char> {
    "<use href=\"#i"@ + spec_dec(p.1 as u64) + "\" x=\""@ + spec_dec(p.0)
        + "\" y=\"0\" width=\"45\" height=\"100\"/>"@
}

/// The text of all placements, in position order.
pub open spec fn spec_uses_str(ps: Seq<(u64, usize)>) -> Seq<char>
    decreases ps.len(),
{
    if ps.len() == 0 {
        Seq::empty()
    } else {
        spec_uses_str(ps.drop_last()) + spec_use_elem(ps.last())
    }
}

/// The text of one glyph definition.
pub open spec fn spec_def_elem(id: usize, uri: Seq<char>) -> Seq<char> {
    "<image id=\"i"@ + spec_dec(id as u64) + "\" width=\"45\" height=\"100\" href=\""@ + uri
        + "\"/>"@
}

/// The text of all glyph definitions, in first-use order.
pub open spec fn spec_defs_str(uris: Seq<String>, ids: Seq<usize>) -> Seq<char>
    recommends
        forall|k: int| 0 <= k < ids.len() ==> ids[k] < uris.len(),
    decreases ids.len(),
{
    if ids.len() == 0 {
        Seq::empty()
    } else {
        spec_defs_str(uris, ids.drop_last()) + spec_def_elem(
            ids.last(),
            uris[ids.last() as int]@,
        )
    }
}

/// The whole document a theme renders a value to: a fixed canvas of
/// `PAD_LENGTH` digit slots, the used glyph definitions, the placements.
pub open spec fn spec_svg(t: Theme, count: u64) -> Seq<char> {
    let ps = spec_placements(t.digits@, spec_pad7(count));
    "<svg xmlns=\"http://www.w3.org/2000/svg\" width=\"315\" height=\"100\"><defs>"@
        + spec_defs_str(t.uris@, spec_defs(ps)) + "</defs>"@ + spec_uses_str(ps) + "</svg>"@
}

/// Render a counter value through a theme into the vector image document.
pub fn render_svg(t: &Theme, count: u64) -> (r: String)
    requires
        t.wf(),
    ensures
        r@ == spec_svg(*t, count),
{
    let img = render(t, count);
    let ghost ps = img.placements@;
    let mut s = String::new();
    s.append("<svg xmlns=\"http://www.w3.org/2000/svg\" width=\"315\" height=\"100\"><defs>");
    let ghost header = s@;
    let mut i: usize = 0;
    proof {
        assert(img.defs@.take(0) =~= Seq::<usize>::empty());
        assert(s@ =~= header + spec_defs_str(t.uris@, img.defs@.take(0)));
    }
    while i < img.defs.len()
        invariant
            t.wf(),
            i <= img.defs@.len(),
            forall|k: int| 0 <= k < img.defs@.len() ==> img.defs@[k] < t.uris@.len(),
            s@ == header + spec_defs_str(t.uris@, img.defs@.take(i as int)),
        decreases img.defs@.len() - i,
    {
        let id = img.defs[i];
        s.append("<image id=\"i");
        let id_text = to_decimal(id as u64);
        s.append(id_text.as_str());
        s.append("\" width=\"45\" height=\"100\" href=\"");
        s.append(t.uris[id].as_str());
        s.append("\"/>");
        i = i + 1;
        proof {
            assert(img.defs@.take(i as int).drop_last() =~= img.defs@.take(i as int - 1));
            assert(img.defs@.take(i as int).last() == img.defs@[i as int - 1]);
            assert(s@ =~= header + spec_defs_str(t.uris@, img.defs@.take(i as int)));
        }
    }
    proof {
        assert(img.defs@.take(img.defs@.len() as int) =~= img.defs@);
    }
    s.append("</defs>");
    let ghost mid = s@;
    let mut j: usize = 0;
    proof {
        assert(ps.take(0) =~= Seq::<(u64, usize)>::empty());
        assert(s@ =~= mid + spec_uses_str(ps.take(0)));
    }
    while j < img.placements.len()
        invariant
            j <= img.placements@.len(),
            img.placements@ == ps,
            s@ == mid + spec_uses_str(ps.take(j as int)),
        decreases img.placements@.len() - j,
    {
        let p = img.placements[j];
        s.append("<use href=\"#i");
        let id_text = to_decimal(p.1 as u64);
        s.append(id_text.as_str());
        s.append("\" x=\"");
        let x_text = to_decimal(p.0);
        s.append(x_text.as_str());
        s.append("\" y=\"0\" width=\"45\" height=\"100\"/>");
        j = j + 1;
        proof {
            assert(ps.take(j as int).drop_last() =~= ps.take(j as int - 1));
            assert(ps.take(j as int).last() == ps[j as int - 1]);
            assert(s@ =~= mid + spec_uses_str(ps.take(j as int)));
        }
    }
    proof {
        assert(ps.take(ps.len() as int) =~= ps);
    }
    s.append("</svg>");
    proof {
        assert(s@ =~= spec_svg(*t, count));
    }
    s
}

} // verus!
