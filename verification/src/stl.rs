//! A mesh as ASCII STL text.
//!
//! The text is framed here; the coordinates of each point come in already
//! written out, one piece of text per coordinate.

use crate::mesh::Triangle;
use vstd::prelude::*;

verus! {

/// The three coordinates of a point, each as text.
pub type Coordinates = (String, String, String);

/// The line for one corner of a triangle.
pub open spec fn vertex_line(c: Coordinates) -> Seq<char> {
    "  vertex "@ + c.0@ + " "@ + c.1@ + " "@ + c.2@ + "\n"@
}

/// The lines for one triangle: a normal of zero, since none is computed,
/// then the three corners in their stored order.
pub open spec fn facet_text(t: Triangle, coordinates: Seq<Coordinates>) -> Seq<char> {
    "facet normal 0 0 0\n"@ + vertex_line(coordinates[t.0 as int]) + vertex_line(
        coordinates[t.1 as int],
    ) + vertex_line(coordinates[t.2 as int]) + "endfacet\n"@
}

/// The lines for all triangles, in order.
pub open spec fn facets_text(triangles: Seq<Triangle>, coordinates: Seq<Coordinates>) -> Seq<char>
    decreases triangles.len(),
{
    if triangles.len() == 0 {
        Seq::empty()
    } else {
        facets_text(triangles.drop_last(), coordinates) + facet_text(triangles.last(), coordinates)
    }
}

/// The whole text for a solid called `name`: a header line, the triangles,
/// and a trailer without a line end.
pub open spec fn solid_text(
    name: Seq<char>,
    triangles: Seq<Triangle>,
    coordinates: Seq<Coordinates>,
) -> Seq<char> {
    "solid "@ + name + "\n"@ + facets_text(triangles, coordinates) + "endsolid "@ + name
}

/// Appends the line for one corner.
fn push_vertex(text: &mut String, c: &Coordinates)
    ensures
        final(text)@ == old(text)@ + vertex_line(*c),
{
    text.append("  vertex ");
    text.append(c.0.as_str());
    text.append(" ");
    text.append(c.1.as_str());
    text.append(" ");
    text.append(c.2.as_str());
    text.append("\n");
    assert(text@ =~= old(text)@ + vertex_line(*c));
}

/// Writes triangles out as ASCII STL text for a solid called `name`.
/// `coordinates[p]` holds the coordinates of the point `p` as text.
pub fn stl_text(name: &str, triangles: &Vec<Triangle>, coordinates: &Vec<Coordinates>) -> (text:
    String)
    requires
        forall|n: int|
            0 <= n < triangles@.len() ==> {
                let t = #[trigger] triangles@[n];
                &&& 0 <= t.0 < coordinates@.len()
                &&& 0 <= t.1 < coordinates@.len()
                &&& 0 <= t.2 < coordinates@.len()
            },
    ensures
        text@ == solid_text(name@, triangles@, coordinates@),
{
    let mut text = String::new();
    text.append("solid ");
    text.append(name);
    text.append("\n");
    let ghost head = text@;
    let mut n: usize = 0;
    assert(triangles@.take(0) =~= Seq::empty());
    assert(text@ =~= head + facets_text(triangles@.take(0), coordinates@));
    while n < triangles.len()
        invariant
            0 <= n <= triangles@.len(),
            forall|n: int|
                0 <= n < triangles@.len() ==> {
                    let t = #[trigger] triangles@[n];
                    &&& 0 <= t.0 < coordinates@.len()
                    &&& 0 <= t.1 < coordinates@.len()
                    &&& 0 <= t.2 < coordinates@.len()
                },
            text@ == head + facets_text(triangles@.take(n as int), coordinates@),
        decreases triangles@.len() - n,
    {
        let t = triangles[n];
        let ghost before = text@;
        text.append("facet normal 0 0 0\n");
        push_vertex(&mut text, &coordinates[t.0 as usize]);
        push_vertex(&mut text, &coordinates[t.1 as usize]);
        push_vertex(&mut text, &coordinates[t.2 as usize]);
        text.append("endfacet\n");
        proof {
            assert(triangles@.take(n as int + 1).drop_last() =~= triangles@.take(
                n as int,
            ));
            assert(triangles@.take(n as int + 1).last() == t);
            assert(text@ =~= before + facet_text(t, coordinates@));
            assert(text@ =~= head + facets_text(
                triangles@.take(n as int + 1),
                coordinates@,
            ));
        }
        n += 1;
    }
    assert(triangles@.take(n as int) =~= triangles@);
    text.append("endsolid ");
    text.append(name);
    assert(text@ =~= solid_text(name@, triangles@, coordinates@));
    text
}

} // verus!
