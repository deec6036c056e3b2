//! The combinatorial side of a uniform polytwister: the faces and edges of its polyhedron, how
//! twisters are filled, and finding a polytwister in a database by name.

use vstd::prelude::*;
use crate::utils::{decimal, decimal_digits};

verus! {

/// A face of a polyhedron: the indices of its vertices and edges, and its orbit.
#[derive(Clone, Debug)]
pub struct PolyhedronFace {
    pub vertices: Vec<usize>,
    pub edges: Vec<usize>,
    pub orbit: u8,
}

/// An edge of a polyhedron, given by the indices of its two vertices.
#[derive(Clone, Copy, Debug, PartialEq, Eq, Structural)]
pub struct PolyhedronEdge {
    pub vertex1: usize,
    pub vertex2: usize,
}

/// A polyhedron given by its faces and edges.
#[derive(Clone, Debug)]
pub struct Polyhedron {
    pub faces: Vec<PolyhedronFace>,
    pub edges: Vec<PolyhedronEdge>,
}

/// Which side of the orthogonal pipe a filling region lies on.
#[derive(Clone, Copy, Debug, PartialEq, Eq, Structural)]
pub enum RegionMode {
    Inner,
    Outer,
    Both,
}

/// A region of a twister that is filled: the points inside exactly `order` neighbouring pipes,
/// on the side of the orthogonal pipe given by `mode`.
#[derive(Clone, Copy, Debug, PartialEq, Eq, Structural)]
pub struct FillingRegion {
    pub order: u32,
    pub mode: RegionMode,
}

/// Two faces share an edge.
pub open spec fn faces_adjacent(a: Seq<usize>, b: Seq<usize>) -> bool {
    exists|i: int, j: int| 0 <= i < a.len() && 0 <= j < b.len() && a[i] == b[j]
}

/// The indices `i < n` for which `pred(i)` holds, in increasing order.
pub open spec fn indices_where(n: int, pred: spec_fn(int) -> bool) -> Seq<usize>
    decreases n,
{
    if n <= 0 {
        Seq::empty()
    } else if pred(n - 1) {
        indices_where(n - 1, pred).push((n - 1) as usize)
    } else {
        indices_where(n - 1, pred)
    }
}

/// An index appears in `indices_where` exactly when it is below `n` and satisfies `pred`.
pub proof fn lemma_indices_where(n: int, pred: spec_fn(int) -> bool, i: int)
    requires
        n <= usize::MAX + 1,
    ensures
        (exists|k: int| 0 <= k < indices_where(n, pred).len() && indices_where(n, pred)[k] as int == i)
            <==> (0 <= i < n && pred(i)),
        forall|a: int, b: int|
            0 <= a < b < indices_where(n, pred).len() ==> indices_where(n, pred)[a]
                < indices_where(n, pred)[b],
        forall|a: int|
            0 <= a < indices_where(n, pred).len() ==> indices_where(n, pred)[a] < n,
    decreases n,
{
    if n > 0 {
        lemma_indices_where(n - 1, pred, i);
        let r = indices_where(n - 1, pred);
        if pred(n - 1) {
            let s = r.push((n - 1) as usize);
            if exists|k: int| 0 <= k < s.len() && s[k] as int == i {
                let k = choose|k: int| 0 <= k < s.len() && s[k] as int == i;
                if k < r.len() {
                    assert(r[k] == s[k]);
                    assert(exists|k2: int| 0 <= k2 < r.len() && r[k2] as int == i);
                } else {
                    assert(i == n - 1);
                }
                assert(0 <= i < n && pred(i));
            }
            assert(s == indices_where(n, pred));
            if 0 <= i < n - 1 && pred(i) {
                let k = choose|k: int| 0 <= k < r.len() && r[k] as int == i;
                assert(s[k] == r[k]);
            }
            if i == n - 1 {
                assert(s[r.len() as int] as int == i);
            }
            assert forall|a: int, b: int| 0 <= a < b < s.len() implies s[a] < s[b] by {
                if b < r.len() {
                    assert(s[a] == r[a] && s[b] == r[b]);
                } else {
                    assert(s[a] == r[a]);
                }
            }
            assert forall|a: int| 0 <= a < s.len() implies s[a] < n by {
                if a < r.len() {
                    assert(s[a] == r[a]);
                }
            }
        } else {
            assert(r == indices_where(n, pred));
            if exists|k: int| 0 <= k < r.len() && r[k] as int == i {
                let k = choose|k: int| 0 <= k < r.len() && r[k] as int == i;
                assert(r[k] < n - 1);
                assert(0 <= i < n && pred(i));
            }
        }
    }
}

impl PolyhedronFace {
    /// The two faces share an edge.
    pub fn adjacent_to_face(&self, other: &PolyhedronFace) -> (r: bool)
        ensures
            r == faces_adjacent(self.edges@, other.edges@),
    {
        let mut i: usize = 0;
        while i < self.edges.len()
            invariant
                i <= self.edges@.len(),
                forall|a: int, b: int|
                    0 <= a < i && 0 <= b < other.edges@.len() ==> self.edges@[a] != other.edges@[b],
            decreases self.edges@.len() - i,
        {
            let e = self.edges[i];
            let mut j: usize = 0;
            while j < other.edges.len()
                invariant
                    i < self.edges@.len(),
                    e == self.edges@[i as int],
                    j <= other.edges@.len(),
                    forall|b: int| 0 <= b < j ==> e != other.edges@[b],
                decreases other.edges@.len() - j,
            {
                if other.edges[j] == e {
                    return true;
                }
                j = j + 1;
            }
            i = i + 1;
        }
        false
    }
}

impl Polyhedron {
    /// Face `i` is adjacent to face `face_index` and is not that face itself.
    pub open spec fn adjacent_to(&self, face_index: int) -> spec_fn(int) -> bool {
        |i: int|
            i != face_index && faces_adjacent(
                self.faces@[i].edges@,
                self.faces@[face_index].edges@,
            )
    }

    /// Face `i` has the edge `edge_index`.
    pub open spec fn has_edge(&self, edge_index: usize) -> spec_fn(int) -> bool {
        |i: int| self.faces@[i].edges@.contains(edge_index)
    }

    /// The indices of the faces that share an edge with the face at `face_index`, in increasing
    /// order.
    pub fn adjacent_face_indices(&self, face_index: usize) -> (r: Vec<usize>)
        requires
            self.faces@.len() > 0 ==> face_index < self.faces@.len(),
        ensures
            r@ == indices_where(self.faces@.len() as int, self.adjacent_to(face_index as int)),
    {
        let ghost pred = self.adjacent_to(face_index as int);
        let mut r: Vec<usize> = Vec::new();
        let mut i: usize = 0;
        while i < self.faces.len()
            invariant
                pred == self.adjacent_to(face_index as int),
                self.faces@.len() > 0 ==> face_index < self.faces@.len(),
                i <= self.faces@.len(),
                r@ == indices_where(i as int, pred),
            decreases self.faces@.len() - i,
        {
            if i != face_index && self.faces[i].adjacent_to_face(&self.faces[face_index]) {
                r.push(i);
            }
            i = i + 1;
        }
        r
    }

    /// The indices of the faces that have the edge `edge_index`, in increasing order.
    pub fn edge_adjacent_face_indices(&self, edge_index: usize) -> (r: Vec<usize>)
        ensures
            r@ == indices_where(self.faces@.len() as int, self.has_edge(edge_index)),
    {
        let ghost pred = self.has_edge(edge_index);
        let mut r: Vec<usize> = Vec::new();
        let mut i: usize = 0;
        while i < self.faces.len()
            invariant
                pred == self.has_edge(edge_index),
                i <= self.faces@.len(),
                r@ == indices_where(i as int, pred),
            decreases self.faces@.len() - i,
        {
            let face = &self.faces[i];
            let mut found = false;
            let mut j: usize = 0;
            while j < face.edges.len()
                invariant
                    j <= face.edges@.len(),
                    found <==> face.edges@.take(j as int).contains(edge_index),
                decreases face.edges@.len() - j,
            {
                if face.edges[j] == edge_index {
                    found = true;
                }
                proof {
                    let t = face.edges@.take(j + 1);
                    assert(t =~= face.edges@.take(j as int).push(face.edges@[j as int]));
                    if face.edges@.take(j as int).contains(edge_index) {
                        let k = choose|k: int| 0 <= k < j && face.edges@.take(j as int)[k] == edge_index;
                        assert(t[k] == edge_index);
                    }
                    if t.contains(edge_index) {
                        let k = choose|k: int| 0 <= k < t.len() && t[k] == edge_index;
                        if k < j {
                            assert(face.edges@.take(j as int)[k] == edge_index);
                        }
                    }
                    if face.edges@[j as int] == edge_index {
                        assert(t[j as int] == edge_index);
                    }
                }
                j = j + 1;
            }
            assert(face.edges@.take(face.edges@.len() as int) =~= face.edges@);
            if found {
                r.push(i);
            }
            i = i + 1;
        }
        r
    }
}

/// The number of `true` values.
pub open spec fn count_true(s: Seq<bool>) -> int
    decreases s.len(),
{
    if s.len() == 0 {
        0
    } else {
        count_true(s.drop_last()) + if s.last() {
            1int
        } else {
            0int
        }
    }
}

proof fn lemma_count_true_bound(s: Seq<bool>)
    ensures
        0 <= count_true(s) <= s.len(),
    decreases s.len(),
{
    if s.len() > 0 {
        lemma_count_true_bound(s.drop_last());
    }
}

/// A point inside (`inner`) or outside the orthogonal pipe and inside exactly `order`
/// neighbouring pipes lies in the region.
pub open spec fn region_contains(region: FillingRegion, inner: bool, order: int) -> bool {
    &&& region.order == order
    &&& match region.mode {
        RegionMode::Inner => inner,
        RegionMode::Outer => !inner,
        RegionMode::Both => true,
    }
}

/// Decide whether a point belongs to the filled part of a twister: `inner` tells whether it is
/// inside the orthogonal pipe and `inside_neighbors[i]` whether it is inside the `i`-th
/// neighbouring pipe. The point is filled when some region matches its side and the number of
/// neighbouring pipes that contain it.
pub fn filling_contains(filling: &Vec<FillingRegion>, inner: bool, inside_neighbors: &Vec<bool>) -> (r: bool)
    requires
        inside_neighbors@.len() <= u32::MAX,
    ensures
        r == exists|k: int|
            0 <= k < filling@.len() && region_contains(
                #[trigger] filling@[k],
                inner,
                count_true(inside_neighbors@),
            ),
{
    let mut order: u32 = 0;
    let mut i: usize = 0;
    while i < inside_neighbors.len()
        invariant
            inside_neighbors@.len() <= u32::MAX,
            i <= inside_neighbors@.len(),
            order == count_true(inside_neighbors@.take(i as int)),
        decreases inside_neighbors@.len() - i,
    {
        proof {
            assert(inside_neighbors@.take(i + 1).drop_last() =~= inside_neighbors@.take(i as int));
            lemma_count_true_bound(inside_neighbors@.take(i + 1));
        }
        if inside_neighbors[i] {
            order = order + 1;
        }
        i = i + 1;
    }
    assert(inside_neighbors@.take(inside_neighbors@.len() as int) =~= inside_neighbors@);
    let mut k: usize = 0;
    while k < filling.len()
        invariant
            k <= filling@.len(),
            order == count_true(inside_neighbors@),
            forall|j: int| 0 <= j < k ==> !region_contains(#[trigger] filling@[j], inner, order as int),
        decreases filling@.len() - k,
    {
        let region = filling[k];
        let side = match region.mode {
            RegionMode::Inner => inner,
            RegionMode::Outer => !inner,
            RegionMode::Both => true,
        };
        if region.order == order && side {
            return true;
        }
        k = k + 1;
    }
    false
}

/// The names under which a polytwister can be found.
#[derive(Clone, Debug)]
pub struct PolytwisterDef {
    pub name: String,
    pub acronym: String,
    pub index: Option<u16>,
    pub symbol_string: String,
}

/// A polytwister's geometry with its names.
pub struct PolytwisterWithDef<G> {
    pub geometry: G,
    pub def: PolytwisterDef,
}

/// A list of polytwisters that can be searched by name.
pub struct PolytwisterDatabase<G> {
    pub polytwisters: Vec<PolytwisterWithDef<G>>,
}

/// Why a search for a polytwister failed.
#[derive(Clone, Copy, Debug, PartialEq, Eq, Structural)]
pub enum FindError {
    /// No polytwister has the name that was asked for.
    NotFound,
}

/// A query character in its normal form: ASCII letters in lower case, `_` and `-` as spaces.
pub open spec fn normalize_char(c: char) -> char {
    if 'A' <= c && c <= 'Z' {
        (c as int + 32) as char
    } else if c == '_' || c == '-' {
        ' '
    } else {
        c
    }
}

/// A query in its normal form: lower case, with `_` and `-` replaced by spaces.
pub open spec fn normalize_query(q: Seq<char>) -> Seq<char> {
    q.map_values(|c: char| normalize_char(c))
}

/// The query (already in normal form) names the polytwister: its acronym, its full name or its
/// symbol, each taken in normal form too, or its index written in decimal.
pub open spec fn def_matches(def: PolytwisterDef, q: Seq<char>) -> bool {
    ||| normalize_query(def.acronym@) == q
    ||| normalize_query(def.name@) == q
    ||| normalize_query(def.symbol_string@) == q
    ||| (def.index matches Some(i) && decimal(i as nat) == q)
}

/// Searching is insensitive to the case of ASCII letters and to `_` and `-` in place of
/// spaces: normalizing a query twice is the same as normalizing it once, an upper-case ASCII
/// letter normalizes to its lower-case form, and a query names a polytwister whenever it has the
/// normal form of the stored acronym, full name or symbol, whatever the case of either.
pub proof fn lemma_normalize_query(q: Seq<char>, c: char, def: PolytwisterDef)
    ensures
        normalize_query(normalize_query(q)) == normalize_query(q),
        'a' <= c <= 'z' ==> normalize_char(((c as int) - 32) as char) == c,
        normalize_char('_') == ' ' && normalize_char('-') == ' ',
        normalize_query(q) == normalize_query(def.name@) ==> def_matches(def, normalize_query(q)),
        normalize_query(q) == normalize_query(def.acronym@) ==> def_matches(def, normalize_query(q)),
        normalize_query(q) == normalize_query(def.symbol_string@) ==> def_matches(
            def,
            normalize_query(q),
        ),
{
    assert(normalize_query(normalize_query(q)) =~= normalize_query(q));
}

/// The normal form of one character of a query.
fn normal_char(c: char) -> (d: char)
    ensures
        d == normalize_char(c),
{
    if 'A' <= c && c <= 'Z' {
        ((c as u8) + 32) as char
    } else if c == '_' || c == '-' {
        ' '
    } else {
        c
    }
}

/// Whether the normal form of a string is exactly the given characters.
pub fn normal_form_equals(s: &str, chars: &Vec<char>) -> (r: bool)
    ensures
        r == (normalize_query(s@) == chars@),
{
    let n = s.unicode_len();
    if n != chars.len() {
        assert(normalize_query(s@).len() == n);
        return false;
    }
    let mut i: usize = 0;
    while i < n
        invariant
            n == s@.len(),
            n == chars@.len(),
            i <= n,
            forall|k: int| 0 <= k < i ==> normalize_char(s@[k]) == chars@[k],
        decreases n - i,
    {
        if normal_char(s.get_char(i)) != chars[i] {
            assert(normalize_query(s@)[i as int] != chars@[i as int]);
            return false;
        }
        i = i + 1;
    }
    assert(normalize_query(s@) =~= chars@);
    true
}

/// The normal form of a query.
pub fn normalize(query: &str) -> (r: Vec<char>)
    ensures
        r@ == normalize_query(query@),
{
    let n = query.unicode_len();
    let mut r: Vec<char> = Vec::new();
    let mut i: usize = 0;
    while i < n
        invariant
            n == query@.len(),
            i <= n,
            r@ == normalize_query(query@.take(i as int)),
        decreases n - i,
    {
        r.push(normal_char(query.get_char(i)));
        assert(r@ =~= normalize_query(query@.take(i + 1)));
        i = i + 1;
    }
    assert(query@.take(n as int) =~= query@);
    r
}

impl PolytwisterDef {
    /// Whether the normalized query names this polytwister.
    pub fn matches(&self, query: &Vec<char>) -> (r: bool)
        ensures
            r == def_matches(*self, query@),
    {
        if normal_form_equals(self.acronym.as_str(), query) {
            return true;
        }
        if normal_form_equals(self.name.as_str(), query) {
            return true;
        }
        if normal_form_equals(self.symbol_string.as_str(), query) {
            return true;
        }
        match self.index {
            Some(index) => {
                let digits = decimal_digits(index as u64);
                let mut same = digits.len() == query.len();
                let mut i: usize = 0;
                while same && i < digits.len()
                    invariant
                        digits@ == decimal(index as nat),
                        i <= digits@.len(),
                        same ==> digits@.len() == query@.len(),
                        same ==> forall|k: int| 0 <= k < i ==> digits@[k] == query@[k],
                        !same ==> digits@ != query@,
                    decreases digits@.len() - i,
                {
                    if digits[i] != query[i] {
                        same = false;
                    }
                    i = i + 1;
                }
                if same {
                    assert(digits@ =~= query@);
                }
                same
            },
            None => false,
        }
    }
}

impl<G: Clone> PolytwisterDatabase<G> {
    /// The index of the first polytwister whose full name, acronym, symbol or index matches the
    /// search string. The search is case-insensitive for ASCII letters, and `_` and `-` may be
    /// used in place of spaces.
    pub fn find_index(&self, query: &str) -> (r: Option<usize>)
        ensures
            match r {
                Some(k) => {
                    &&& k < self.polytwisters@.len()
                    &&& def_matches(self.polytwisters@[k as int].def, normalize_query(query@))
                    &&& forall|j: int|
                        0 <= j < k ==> !def_matches(
                            self.polytwisters@[j].def,
                            normalize_query(query@),
                        )
                },
                None => forall|j: int|
                    0 <= j < self.polytwisters@.len() ==> !def_matches(
                        #[trigger] self.polytwisters@[j].def,
                        normalize_query(query@),
                    ),
            },
    {
        let q = normalize(query);
        let mut k: usize = 0;
        while k < self.polytwisters.len()
            invariant
                q@ == normalize_query(query@),
                k <= self.polytwisters@.len(),
                forall|j: int| 0 <= j < k ==> !def_matches(#[trigger] self.polytwisters@[j].def, q@),
            decreases self.polytwisters@.len() - k,
        {
            if self.polytwisters[k].def.matches(&q) {
                return Some(k);
            }
            k = k + 1;
        }
        None
    }

    /// Given a search string, find a matching polytwister: the first whose full name, acronym,
    /// symbol or index matches. Case-insensitive for ASCII letters, and `_` and `-` may be
    /// substituted for spaces.
    pub fn find(&self, query: &str) -> (r: Result<G, FindError>)
        ensures
            match r {
                Ok(g) => exists|k: int|
                    {
                        &&& 0 <= k < self.polytwisters@.len()
                        &&& def_matches(self.polytwisters@[k].def, normalize_query(query@))
                        &&& forall|j: int|
                            0 <= j < k ==> !def_matches(
                                self.polytwisters@[j].def,
                                normalize_query(query@),
                            )
                        &&& cloned(self.polytwisters@[k].geometry, g)
                    },
                Err(e) => e == FindError::NotFound && forall|j: int|
                    0 <= j < self.polytwisters@.len() ==> !def_matches(
                        #[trigger] self.polytwisters@[j].def,
                        normalize_query(query@),
                    ),
            },
    {
        match self.find_index(query) {
            Some(k) => {
                let g = self.polytwisters[k].geometry.clone();
                Ok(g)
            },
            None => Err(FindError::NotFound),
        }
    }
}

} // verus!
