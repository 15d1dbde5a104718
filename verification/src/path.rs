//! Paths into a JSON document: sequences of array indices and object keys.
use vstd::prelude::*;
use vstd::std_specs::cmp::PartialEqSpecImpl;
use vstd::std_specs::cmp::PartialOrdSpecImpl;
use std::cmp::Ordering;

use crate::value::{Json, Value, lemma_array_view};

verus! {

#[derive(Debug)]
pub enum PathError {
    EmptyPath,
    ParsePathFromJsonFailed { reason: String },
    InvalidIndexPath(String),
}

pub type Result<T> = std::result::Result<T, PathError>;

/// One step of a path: an index into an array or a key of an object.
#[derive(Debug)]
pub enum PathElement {
    Index(usize),
    Key(String),
}

/// The model of a path element.
pub enum PathKey {
    Index(usize),
    Key(Seq<char>),
}

impl PathElement {
    pub open spec fn view(&self) -> PathKey {
        match self {
            PathElement::Index(i) => PathKey::Index(*i),
            PathElement::Key(k) => PathKey::Key(k@),
        }
    }
}

/// Path elements are ordered only when both are indices, or equal keys.
pub open spec fn key_partial_cmp(a: PathKey, b: PathKey) -> Option<Ordering> {
    match (a, b) {
        (PathKey::Index(x), PathKey::Index(y)) => if x < y {
            Some(Ordering::Less)
        } else if x == y {
            Some(Ordering::Equal)
        } else {
            Some(Ordering::Greater)
        },
        (PathKey::Key(x), PathKey::Key(y)) => if x == y {
            Some(Ordering::Equal)
        } else {
            None
        },
        _ => None,
    }
}

/// `a < b` for path elements: both indices, and the first is smaller.
pub open spec fn key_lt(a: PathKey, b: PathKey) -> bool {
    match (a, b) {
        (PathKey::Index(x), PathKey::Index(y)) => x < y,
        _ => false,
    }
}

/// `a <= b` for path elements: both indices with the first not larger, or equal keys.
pub open spec fn key_le(a: PathKey, b: PathKey) -> bool {
    match (a, b) {
        (PathKey::Index(x), PathKey::Index(y)) => x <= y,
        (PathKey::Key(x), PathKey::Key(y)) => x == y,
        _ => false,
    }
}

impl Clone for PathElement {
    fn clone(&self) -> (r: Self)
        ensures
            r == *self,
    {
        match self {
            PathElement::Index(i) => PathElement::Index(*i),
            PathElement::Key(k) => PathElement::Key(k.clone()),
        }
    }
}

impl PartialEq for PathElement {
    fn eq(&self, other: &Self) -> (r: bool) {
        match (self, other) {
            (PathElement::Index(a), PathElement::Index(b)) => *a == *b,
            (PathElement::Key(a), PathElement::Key(b)) => a.eq(b),
            _ => false,
        }
    }
}

impl PartialEqSpecImpl for PathElement {
    open spec fn obeys_eq_spec() -> bool {
        true
    }

    open spec fn eq_spec(&self, other: &PathElement) -> bool {
        self@ == other@
    }
}

impl PartialOrd for PathElement {
    fn partial_cmp(&self, other: &Self) -> (r: Option<Ordering>) {
        match (self, other) {
            (PathElement::Index(a), PathElement::Index(b)) => if *a < *b {
                Some(Ordering::Less)
            } else if *a == *b {
                Some(Ordering::Equal)
            } else {
                Some(Ordering::Greater)
            },
            (PathElement::Key(a), PathElement::Key(b)) => if a.eq(b) {
                Some(Ordering::Equal)
            } else {
                None
            },
            _ => None,
        }
    }
}

impl PartialOrdSpecImpl for PathElement {
    open spec fn obeys_partial_cmp_spec() -> bool {
        true
    }

    open spec fn partial_cmp_spec(&self, other: &PathElement) -> Option<Ordering> {
        key_partial_cmp(self@, other@)
    }
}

impl From<usize> for PathElement {
    fn from(i: usize) -> (r: PathElement) {
        PathElement::Index(i)
    }
}

impl vstd::std_specs::convert::FromSpecImpl<usize> for PathElement {
    open spec fn obeys_from_spec() -> bool {
        true
    }

    open spec fn from_spec(i: usize) -> PathElement {
        PathElement::Index(i)
    }
}

impl From<String> for PathElement {
    fn from(k: String) -> (r: PathElement) {
        PathElement::Key(k)
    }
}

impl vstd::std_specs::convert::FromSpecImpl<String> for PathElement {
    open spec fn obeys_from_spec() -> bool {
        true
    }

    open spec fn from_spec(k: String) -> PathElement {
        PathElement::Key(k)
    }
}

/// The models of a sequence of path elements.
pub open spec fn elements_view(s: Seq<PathElement>) -> Seq<PathKey> {
    Seq::new(s.len(), |i: int| s[i]@)
}

/// A path into a JSON document.
#[derive(Debug)]
pub struct Path {
    paths: Vec<PathElement>,
}

/// The key at position `i` of a path, if that element is a key.
pub open spec fn key_at(p: Seq<PathKey>, i: int) -> Option<Seq<char>> {
    if 0 <= i < p.len() {
        match p[i] {
            PathKey::Key(k) => Some(k),
            PathKey::Index(_) => None,
        }
    } else {
        None
    }
}

/// The index at position `i` of a path, if that element is an index.
pub open spec fn index_at(p: Seq<PathKey>, i: int) -> Option<usize> {
    if 0 <= i < p.len() {
        match p[i] {
            PathKey::Index(n) => Some(n),
            PathKey::Key(_) => None,
        }
    } else {
        None
    }
}

/// The length of the longest common prefix of `a` and `b`.
pub open spec fn is_common_prefix_len(a: Seq<PathKey>, b: Seq<PathKey>, n: int) -> bool {
    &&& 0 <= n <= a.len()
    &&& n <= b.len()
    &&& forall|i: int| 0 <= i < n ==> a[i] == b[i]
    &&& (n == a.len() || n == b.len() || a[n] != b[n])
}

/// The path element that a JSON item of a path stands for.
pub open spec fn json_path_key(j: Json) -> Option<PathKey> {
    match j {
        Json::Number(n) => if n >= 0 {
            Some(PathKey::Index(#[verifier::truncate] (n as usize)))
        } else {
            None
        },
        Json::Str(s) => Some(PathKey::Key(s)),
        _ => None,
    }
}

/// `i` is the first item of `items` that stands for no path element.
pub open spec fn is_first_bad_item(items: Seq<Json>, i: int) -> bool {
    &&& 0 <= i < items.len()
    &&& json_path_key(items[i]) is None
    &&& forall|j: int| 0 <= j < i ==> json_path_key(items[j]) is Some
}

/// The path that a JSON document describes, if it describes one: a non-empty array
/// of non-negative integers and strings.
pub open spec fn path_of_json(v: Json) -> Option<Seq<PathKey>> {
    match v {
        Json::Array(items) => if items.len() > 0 && forall|i: int|
            0 <= i < items.len() ==> json_path_key(#[trigger] items[i]) is Some {
            Some(Seq::new(items.len(), |i: int| json_path_key(items[i])->0))
        } else {
            None
        },
        _ => None,
    }
}

/// A document fails to be a path because of a negative index: it is a non-empty
/// array whose first bad item is a negative number.
pub open spec fn path_json_has_negative_index(v: Json) -> bool {
    match v {
        Json::Array(items) => items.len() > 0 && exists|i: int|
            #[trigger] is_first_bad_item(items, i) && items[i] is Number,
        _ => false,
    }
}

impl Path {
    pub closed spec fn view(&self) -> Seq<PathKey> {
        elements_view(self.paths@)
    }

    pub fn first_key_path(&self) -> (r: Option<&String>)
        ensures
            match r {
                Some(k) => key_at(self@, 0) == Some(k@),
                None => key_at(self@, 0) is None,
            },
    {
        self.get_key_at(0)
    }

    pub fn first_index_path(&self) -> (r: Option<&usize>)
        ensures
            match r {
                Some(i) => index_at(self@, 0) == Some(*i),
                None => index_at(self@, 0) is None,
            },
    {
        self.get_index_at(0)
    }

    pub fn get(&self, index: usize) -> (r: Option<&PathElement>)
        ensures
            match r {
                Some(e) => index < self@.len() && e@ == self@[index as int],
                None => index >= self@.len(),
            },
    {
        if index < self.paths.len() {
            Some(&self.paths[index])
        } else {
            None
        }
    }

    pub fn get_elements(&self) -> (r: &Vec<PathElement>)
        ensures
            elements_view(r@) == self@,
    {
        &self.paths
    }

    pub fn get_mut_elements(&mut self) -> (r: &mut Vec<PathElement>)
        ensures
            elements_view(r@) == old(self)@,
            final(self)@ == elements_view(final(r)@),
    {
        &mut self.paths
    }

    pub fn get_key_at(&self, index: usize) -> (r: Option<&String>)
        ensures
            match r {
                Some(k) => key_at(self@, index as int) == Some(k@),
                None => key_at(self@, index as int) is None,
            },
    {
        if index >= self.paths.len() {
            return None;
        }
        match &self.paths[index] {
            PathElement::Index(_) => None,
            PathElement::Key(k) => Some(k),
        }
    }

    pub fn get_index_at(&self, index: usize) -> (r: Option<&usize>)
        ensures
            match r {
                Some(i) => index_at(self@, index as int) == Some(*i),
                None => index_at(self@, index as int) is None,
            },
    {
        if index >= self.paths.len() {
            return None;
        }
        match &self.paths[index] {
            PathElement::Index(i) => Some(i),
            PathElement::Key(_) => None,
        }
    }

    pub fn last(&self) -> (r: Option<&PathElement>)
        requires
            self@.len() > 0,
        ensures
            r is Some,
            r->0@ == self@.last(),
    {
        self.get(self.paths.len() - 1)
    }

    pub fn replace(&mut self, index: usize, path_elem: PathElement) -> (r: Option<PathElement>)
        ensures
            match r {
                Some(e) => index < old(self)@.len() && e@ == old(self)@[index as int]
                    && final(self)@ == old(self)@.update(index as int, path_elem@),
                None => index >= old(self)@.len() && final(self)@ == old(self)@,
            },
    {
        if index < self.paths.len() {
            let ghost pv = path_elem@;
            let mut e = path_elem;
            self.paths.set_and_swap(index, &mut e);
            assert(elements_view(self.paths@) =~= elements_view(old(self).paths@).update(index as int, pv));
            return Some(e);
        }
        None
    }

    pub fn increase_index(&mut self, index: usize) -> (r: bool)
        requires
            index_at(old(self)@, index as int) matches Some(i) ==> i < usize::MAX,
        ensures
            r == index_at(old(self)@, index as int) is Some,
            r ==> final(self)@ == old(self)@.update(
                index as int,
                PathKey::Index((index_at(old(self)@, index as int)->0 + 1) as usize),
            ),
            !r ==> final(self)@ == old(self)@,
    {
        if let Some(i) = self.get_index_at(index) {
            let n = *i + 1;
            self.replace(index, PathElement::Index(n));
            return true;
        }
        false
    }

    pub fn decrease_index(&mut self, index: usize) -> (r: bool)
        requires
            index_at(old(self)@, index as int) matches Some(i) ==> i > 0,
        ensures
            r == index_at(old(self)@, index as int) is Some,
            r ==> final(self)@ == old(self)@.update(
                index as int,
                PathKey::Index((index_at(old(self)@, index as int)->0 - 1) as usize),
            ),
            !r ==> final(self)@ == old(self)@,
    {
        if let Some(i) = self.get_index_at(index) {
            let n = *i - 1;
            self.replace(index, PathElement::Index(n));
            return true;
        }
        false
    }

    /// A copy of the elements from `start` up to `end`.
    fn copy_range(&self, start: usize, end: usize) -> (r: Path)
        requires
            start <= end <= self@.len(),
        ensures
            r@ == self@.subrange(start as int, end as int),
    {
        let mut out: Vec<PathElement> = Vec::new();
        let mut i = start;
        while i < end
            invariant
                start <= i <= end,
                end <= self.paths.len(),
                out.len() == i - start,
                forall|j: int| 0 <= j < out.len() ==> #[trigger] out@[j] == self.paths@[start + j],
            decreases end - i,
        {
            out.push(self.paths[i].clone());
            i = i + 1;
        }
        let r = Path { paths: out };
        assert(r@ =~= self@.subrange(start as int, end as int));
        r
    }

    pub fn split_at(&self, mid: usize) -> (r: (Path, Path))
        requires
            mid <= self@.len(),
        ensures
            r.0@ == self@.take(mid as int),
            r.1@ == self@.skip(mid as int),
    {
        let left = self.copy_range(0, mid);
        let right = self.copy_range(mid, self.paths.len());
        (left, right)
    }

    /// The longest common prefix of `self` and `path`.
    pub fn max_common_path(&self, path: &Path) -> (r: Path)
        ensures
            is_common_prefix_len(self@, path@, r@.len() as int),
            r@ == path@.take(r@.len() as int),
    {
        let mut common_p: Vec<PathElement> = Vec::new();
        let mut i: usize = 0;
        while i < path.paths.len() && i < self.paths.len() && path.paths[i] == self.paths[i]
            invariant
                i <= path.paths.len(),
                i <= self.paths.len(),
                common_p.len() == i,
                forall|j: int| 0 <= j < i ==> #[trigger] common_p@[j] == path.paths@[j],
                forall|j: int| 0 <= j < i ==> j < self@.len() && #[trigger] self@[j] == path@[j],
            decreases path.paths.len() - i,
        {
            common_p.push(path.paths[i].clone());
            i = i + 1;
        }
        let r = Path { paths: common_p };
        assert(r@ =~= path@.take(i as int));
        r
    }

    /// A copy of `path` (every element of `path` is a prefix of itself).
    pub fn common_path_prefix(&self, path: &Path) -> (r: Path)
        ensures
            r@ == path@,
    {
        let r = path.copy_range(0, path.paths.len());
        assert(path@.subrange(0, path@.len() as int) =~= path@);
        r
    }

    pub fn is_empty(&self) -> (r: bool)
        ensures
            r == (self@.len() == 0),
    {
        self.paths.len() == 0
    }

    pub fn is_prefix_of(&self, path: &Path) -> (r: bool)
        ensures
            r == self@.is_prefix_of(path@),
    {
        let mut i: usize = 0;
        while i < self.paths.len()
            invariant
                i <= self.paths.len(),
                i <= path.paths.len(),
                forall|j: int| 0 <= j < i ==> self@[j] == path@[j],
            decreases self.paths.len() - i,
        {
            if i < path.paths.len() {
                if self.paths[i] != path.paths[i] {
                    proof {
                        if self@.len() <= path@.len() {
                            assert(path@.subrange(0, self@.len() as int)[i as int] == path@[i as int]);
                            assert(self@[i as int] != path@[i as int]);
                        }
                    }
                    return false;
                }
            } else {
                return false;
            }
            i = i + 1;
        }
        assert(self@ =~= path@.subrange(0, self@.len() as int));
        true
    }

    pub fn len(&self) -> (r: usize)
        ensures
            r == self@.len(),
    {
        self.paths.len()
    }

    pub fn next_level(&self) -> (r: Path)
        requires
            self@.len() > 0,
        ensures
            r@ == self@.skip(1),
    {
        self.copy_range(1, self.paths.len())
    }

    /// The path that a JSON document describes: a non-empty array of non-negative
    /// integers (indices) and strings (keys).
    pub fn from_value(value: &Value) -> (r: Result<Path>)
        ensures
            match r {
                Ok(p) => path_of_json(value@) == Some(p@),
                Err(e) => path_of_json(value@) is None && (e is InvalidIndexPath
                    <==> path_json_has_negative_index(value@)) && !(e is EmptyPath),
            },
    {
        match value {
            Value::Array(arr) => {
                proof {
                    lemma_array_view(*arr);
                }
                if arr.len() == 0 {
                    return Err(PathError::ParsePathFromJsonFailed {
                        reason: String::from_str("json value is an empty array, an empty path is not allowed"),
                    });
                }
                let ghost items = value@->Array_0;
                let mut paths: Vec<PathElement> = Vec::new();
                let mut i: usize = 0;
                while i < arr.len()
                    invariant
                        i <= arr.len(),
                        items == value@->Array_0,
                        value@ is Array,
                        items.len() == arr.len(),
                        forall|j: int| 0 <= j < arr.len() ==> #[trigger] items[j] == arr@[j]@,
                        paths.len() == i,
                        forall|j: int| #![trigger paths@[j]] #![trigger items[j]] 0 <= j < i ==> json_path_key(items[j]) == Some(paths@[j]@),
                    decreases arr.len() - i,
                {
                    match &arr[i] {
                        Value::Number(n) => {
                            if *n >= 0 {
                                paths.push(PathElement::Index(#[verifier::truncate] (*n as usize)));
                            } else {
                                proof {
                                    assert(is_first_bad_item(items, i as int));
                                    assert(items[i as int] is Number);
                                    assert(path_json_has_negative_index(value@));
                                    assert(path_of_json(value@) is None);
                                }
                                return Err(PathError::InvalidIndexPath(n.to_string()));
                            }
                        },
                        Value::String(k) => {
                            paths.push(PathElement::Key(k.clone()));
                        },
                        _ => {
                            proof {
                                assert(is_first_bad_item(items, i as int));
                                assert(json_path_key(items[i as int]) is None);
                                assert forall|j: int| #[trigger] is_first_bad_item(items, j) implies !(items[j] is Number) by {
                                    if j < i {
                                        assert(json_path_key(items[j]) is Some);
                                    } else if j > i {
                                        assert(json_path_key(items[i as int]) is Some);
                                    }
                                }
                            }
                            return Err(PathError::ParsePathFromJsonFailed {
                                reason: String::from_str("path element is neither a non-negative integer nor a string"),
                            });
                        },
                    }
                    i = i + 1;
                }
                let p = Path { paths };
                assert(p@ =~= Seq::new(items.len(), |j: int| json_path_key(items[j])->0));
                Ok(p)
            },
            _ => Err(PathError::ParsePathFromJsonFailed {
                reason: String::from_str("json value is not an array"),
            }),
        }
    }

    /// The path read from the text `input`; `parsed` is what a JSON parser read
    /// from that text, `None` where it is not valid JSON.
    pub fn from_parsed_text(input: &str, parsed: Option<Value>) -> (r: Result<Path>)
        ensures
            match parsed {
                None => r matches Err(PathError::ParsePathFromJsonFailed { .. }),
                Some(v) => match r {
                    Ok(p) => path_of_json(v@) == Some(p@),
                    Err(e) => path_of_json(v@) is None && (e is InvalidIndexPath
                        <==> path_json_has_negative_index(v@)) && !(e is EmptyPath),
                },
            },
    {
        match parsed {
            Some(v) => Path::from_value(&v),
            None => {
                let mut reason = String::from_str(input);
                reason.append(" is not a valid path");
                Err(PathError::ParsePathFromJsonFailed { reason })
            },
        }
    }
}

impl Clone for Path {
    fn clone(&self) -> (r: Self)
        ensures
            r@ == self@,
    {
        let r = self.copy_range(0, self.paths.len());
        assert(self@.subrange(0, self@.len() as int) =~= self@);
        r
    }
}

impl PartialEq for Path {
    fn eq(&self, other: &Self) -> (r: bool) {
        if self.paths.len() != other.paths.len() {
            return false;
        }
        let r = self.is_prefix_of(other);
        proof {
            if r {
                assert(self@ =~= other@);
            }
        }
        r
    }
}

impl PartialEqSpecImpl for Path {
    open spec fn obeys_eq_spec() -> bool {
        true
    }

    open spec fn eq_spec(&self, other: &Path) -> bool {
        self@ == other@
    }
}

/// Builds a path element by element.
pub struct PathBuilder {
    elements: Vec<PathElement>,
}

impl PathBuilder {
    pub closed spec fn view(&self) -> Seq<PathKey> {
        elements_view(self.elements@)
    }

    pub fn new() -> (r: PathBuilder)
        ensures
            r@ == Seq::<PathKey>::empty(),
    {
        let r = PathBuilder { elements: Vec::new() };
        assert(r@ =~= Seq::<PathKey>::empty());
        r
    }

    pub fn add_index_path(self, index: usize) -> (r: Self)
        ensures
            r@ == self@.push(PathKey::Index(index)),
    {
        self.add_path(PathElement::Index(index))
    }

    pub fn add_key_path(self, key: String) -> (r: Self)
        ensures
            r@ == self@.push(PathKey::Key(key@)),
    {
        self.add_path(PathElement::Key(key))
    }

    pub fn add_path(self, val: PathElement) -> (r: Self)
        ensures
            r@ == self@.push(val@),
    {
        let ghost old_view = self@;
        let ghost v = val@;
        let mut b = self;
        b.elements.push(val);
        assert(b@ =~= old_view.push(v));
        b
    }

    pub fn add_all_paths(self, paths: Vec<PathElement>) -> (r: Self)
        ensures
            r@ == self@ + elements_view(paths@),
    {
        let ghost start = self@;
        let mut b = self;
        let mut i: usize = 0;
        while i < paths.len()
            invariant
                i <= paths.len(),
                b@ == start + elements_view(paths@).take(i as int),
            decreases paths.len() - i,
        {
            b = b.add_path(paths[i].clone());
            assert(elements_view(paths@).take(i + 1) =~= elements_view(paths@).take(i as int).push(paths@[i as int]@));
            i = i + 1;
        }
        assert(elements_view(paths@).take(paths.len() as int) =~= elements_view(paths@));
        b
    }

    pub fn build(self) -> (r: Result<Path>)
        ensures
            match r {
                Ok(p) => self@.len() > 0 && p@ == self@,
                Err(e) => self@.len() == 0 && e is EmptyPath,
            },
    {
        if self.elements.len() == 0 {
            return Err(PathError::EmptyPath);
        }
        Ok(Path { paths: self.elements })
    }
}

} // verus!
