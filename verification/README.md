# geop_topology

The topology layer of a boundary-representation CAD kernel, written in Verus.

Points, curves and surfaces are carried as identities (`point`, `curve`): the
topology only compares them and reverses orientations. Every geometric question
(is a point on a curve, does it lie between two others, which side of a face a
ray enters) is answered by the geometry layer and passed in as a plain value
(`EdgePointProbe`, booleans, containment results), or asked through a
closure that has to answer the same for the same question.

Modules:

- `edge`: edges between two points along a curve; reversing, splitting.
- `contains`: classification of points and edges against edges, contours,
  faces and solids.
- `contour`: closed contours (chains of edges, or whole curves with one or no
  corner); locating points on them, cutting out sub-curves, inserting corners.
- `face`, `volume`: faces bounded by contours, shells and solids.
- `split`: splitting edges at points into paths of pieces, and faces along
  edges.
- `split_parts`: combining two faces on one surface (union, intersection,
  difference): cutting both boundaries, classifying the pieces, keeping and
  re-chaining them.
- `remesh`: tagging the pieces of two cut faces or solids, keeping the pieces
  of a union or intersection, and chaining loose edges back into contours.
- `regularize`: the containment matrix of a face's boundaries, and edges of
  several intervals split into one edge per non-degenerate interval.
- `error`: topology errors with context.
