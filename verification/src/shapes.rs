use vstd::prelude::*;

verus! {

/// The faces of the cube die by its corners: corner `0` is `(+,+,+)`, then
/// `(-,+,+)`, `(+,-,+)`, `(+,+,-)`, `(-,+,-)`, `(-,-,+)`, `(+,-,-)` and
/// `(-,-,-)`.
pub open spec fn cube_faces() -> Seq<Seq<u16>> {
    seq![
        seq![0u16, 1, 2, 5],
        seq![0u16, 1, 3, 4],
        seq![0u16, 2, 3, 6],
        seq![7u16, 6, 5, 2],
        seq![7u16, 6, 4, 3],
        seq![7u16, 5, 4, 1],
    ]
}

/// The faces of the cube die, each by its four corners.
pub fn face_indices() -> (r: [[u16; 4]; 6])
    ensures
        r@.map_values(|f: [u16; 4]| f@) == cube_faces(),
{
    let r = [[0, 1, 2, 5], [0, 1, 3, 4], [0, 2, 3, 6], [7, 6, 5, 2], [7, 6, 4, 3], [7, 5, 4, 1]];
    assert(r@.map_values(|f: [u16; 4]| f@) =~= cube_faces());
    r
}

/// How many faces of `faces` hold the corner `v`.
pub open spec fn faces_at(faces: Seq<Seq<u16>>, v: u16) -> nat
    decreases faces.len(),
{
    if faces.len() == 0 {
        0
    } else {
        faces_at(faces.drop_last(), v) + (if faces.last().contains(v) {
            1nat
        } else {
            0nat
        })
    }
}

/// Each face of the cube die has four different corners among the eight,
/// and each corner lies on exactly three faces.
pub proof fn law_cube_faces(v: u16)
    requires
        v < 8,
    ensures
        forall|i: int| 0 <= i < 6 ==> #[trigger] cube_faces()[i].no_duplicates(),
        forall|i: int, j: int| 0 <= i < 6 && 0 <= j < 4 ==> #[trigger] cube_faces()[i][j] < 8,
        faces_at(cube_faces(), v) == 3,
{
    let f = cube_faces();
    reveal_with_fuel(faces_at, 7);
    assert(f.drop_last().drop_last().drop_last().drop_last().drop_last().drop_last() =~= Seq::<
        Seq<u16>,
    >::empty());
    assert(f.last() =~= seq![7u16, 5, 4, 1]);
    assert(f.drop_last().last() =~= seq![7u16, 6, 4, 3]);
    assert(f.drop_last().drop_last().last() =~= seq![7u16, 6, 5, 2]);
    assert(f.drop_last().drop_last().drop_last().last() =~= seq![0u16, 2, 3, 6]);
    assert(f.drop_last().drop_last().drop_last().drop_last().last() =~= seq![0u16, 1, 3, 4]);
    assert(f.drop_last().drop_last().drop_last().drop_last().drop_last().last() =~= seq![
        0u16,
        1,
        2,
        5,
    ]);
    assert(seq![7u16, 5, 4, 1].contains(v) == (v == 7 || v == 5 || v == 4 || v == 1)) by {
        if v == 7 || v == 5 || v == 4 || v == 1 {
            let s = seq![7u16, 5, 4, 1];
            assert(s[0] == 7 && s[1] == 5 && s[2] == 4 && s[3] == 1);
        }
    }
    assert(seq![7u16, 6, 4, 3].contains(v) == (v == 7 || v == 6 || v == 4 || v == 3)) by {
        let s = seq![7u16, 6, 4, 3];
        assert(s[0] == 7 && s[1] == 6 && s[2] == 4 && s[3] == 3);
    }
    assert(seq![7u16, 6, 5, 2].contains(v) == (v == 7 || v == 6 || v == 5 || v == 2)) by {
        let s = seq![7u16, 6, 5, 2];
        assert(s[0] == 7 && s[1] == 6 && s[2] == 5 && s[3] == 2);
    }
    assert(seq![0u16, 2, 3, 6].contains(v) == (v == 0 || v == 2 || v == 3 || v == 6)) by {
        let s = seq![0u16, 2, 3, 6];
        assert(s[0] == 0 && s[1] == 2 && s[2] == 3 && s[3] == 6);
    }
    assert(seq![0u16, 1, 3, 4].contains(v) == (v == 0 || v == 1 || v == 3 || v == 4)) by {
        let s = seq![0u16, 1, 3, 4];
        assert(s[0] == 0 && s[1] == 1 && s[2] == 3 && s[3] == 4);
    }
    assert(seq![0u16, 1, 2, 5].contains(v) == (v == 0 || v == 1 || v == 2 || v == 5)) by {
        let s = seq![0u16, 1, 2, 5];
        assert(s[0] == 0 && s[1] == 1 && s[2] == 2 && s[3] == 5);
    }
}

} // verus!
