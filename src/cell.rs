use vstd::prelude::*;

verus! {

/// One parsed field.
///
/// A decimal field keeps the text that the tokenizer classified as a decimal
/// number (digits with one point, trimmed); its binary floating-point value is
/// left to the caller.
#[derive(Debug, Clone, PartialEq)]
pub enum Cell {
    /// Empty field
    Null,
    /// Text field
    String(String),
    /// Integer field
    Number(i64),
    /// Decimal field, as written
    Decimal(String),
}

/// Abstract value of a [`Cell`].
pub enum CellView {
    Null,
    Text(Seq<char>),
    Int(int),
    Dec(Seq<char>),
}

impl View for Cell {
    type V = CellView;

    open spec fn view(&self) -> CellView {
        match self {
            Cell::Null => CellView::Null,
            Cell::String(s) => CellView::Text(s@),
            Cell::Number(n) => CellView::Int(*n as int),
            Cell::Decimal(s) => CellView::Dec(s@),
        }
    }
}

/// Inferred type of a column; ordered `Null < I64 < F64 < String`.
#[derive(Clone, Copy, Debug, PartialEq, Eq, Structural)]
pub enum CellType {
    /// String data type
    String,
    /// Signed Integer
    I64,
    /// Floating Number
    F64,
    /// Empty or null
    Null,
}

/// Position of a type in the lattice `Null < I64 < F64 < String`.
pub open spec fn rank(t: CellType) -> int {
    match t {
        CellType::Null => 0,
        CellType::I64 => 1,
        CellType::F64 => 2,
        CellType::String => 3,
    }
}

/// The merge rule: String if either is String, else F64 if either is F64,
/// else I64 if either is I64, else Null.
pub open spec fn merge(a: CellType, b: CellType) -> CellType {
    if a == CellType::String || b == CellType::String {
        CellType::String
    } else if a == CellType::F64 || b == CellType::F64 {
        CellType::F64
    } else if a == CellType::I64 || b == CellType::I64 {
        CellType::I64
    } else {
        CellType::Null
    }
}

/// Merge of all the types in `s`, starting from `Null`.
pub open spec fn merge_all(s: Seq<CellType>) -> CellType
    decreases s.len(),
{
    if s.len() == 0 {
        CellType::Null
    } else {
        merge(merge_all(s.drop_last()), s.last())
    }
}

/// The merge is the least upper bound in the lattice.
pub proof fn lemma_merge_is_max(a: CellType, b: CellType)
    ensures
        rank(merge(a, b)) == if rank(a) >= rank(b) { rank(a) } else { rank(b) },
        rank(merge(a, b)) == rank(a) ==> merge(a, b) == a,
        rank(merge(a, b)) == rank(b) ==> merge(a, b) == b,
{
}

/// The merge is commutative, associative and idempotent, with `Null` as
/// its identity.
pub proof fn lemma_merge_laws(a: CellType, b: CellType, c: CellType)
    ensures
        merge(a, b) == merge(b, a),
        merge(merge(a, b), c) == merge(a, merge(b, c)),
        merge(a, a) == a,
        merge(CellType::Null, a) == a,
        merge(a, CellType::Null) == a,
{
}

/// Merging two runs of observations separately and then merging the two
/// results gives the merge of the whole run.
pub proof fn lemma_merge_all_append(s: Seq<CellType>, t: Seq<CellType>)
    ensures
        merge_all(s + t) == merge(merge_all(s), merge_all(t)),
    decreases t.len(),
{
    if t.len() == 0 {
        assert(s + t =~= s);
    } else {
        assert((s + t).drop_last() =~= s + t.drop_last());
        lemma_merge_all_append(s, t.drop_last());
    }
}

/// A column's inferred type: all integers give I64; one float anywhere
/// (and no text) gives F64; one text anywhere gives String; only empty
/// fields give Null.
pub proof fn lemma_column_inference(s: Seq<CellType>)
    ensures
        (merge_all(s) == CellType::String) <==> s.contains(CellType::String),
        (merge_all(s) == CellType::F64) <==> (s.contains(CellType::F64) && !s.contains(
            CellType::String,
        )),
        (merge_all(s) == CellType::I64) <==> (s.contains(CellType::I64) && !s.contains(
            CellType::String,
        ) && !s.contains(CellType::F64)),
        (merge_all(s) == CellType::Null) <==> (forall|i: int|
            0 <= i < s.len() ==> s[i] == CellType::Null),
    decreases s.len(),
{
    if s.len() > 0 {
        let p = s.drop_last();
        lemma_column_inference(p);
        assert(s =~= p.push(s.last()));
        assert forall|t: CellType| s.contains(t) <==> (p.contains(t) || s.last() == t) by {
            if s.contains(t) {
                let i = choose|i: int| 0 <= i < s.len() && s[i] == t;
                if i < s.len() - 1 {
                    assert(p[i] == t);
                }
            }
            if p.contains(t) {
                let i = choose|i: int| 0 <= i < p.len() && p[i] == t;
                assert(s[i] == t);
            }
            if s.last() == t {
                assert(s[s.len() - 1] == t);
            }
        }
        if forall|i: int| 0 <= i < s.len() ==> s[i] == CellType::Null {
            assert forall|i: int| 0 <= i < p.len() implies p[i] == CellType::Null by {
                assert(s[i] == CellType::Null);
            }
            assert(s[s.len() - 1] == CellType::Null);
        }
        if merge_all(s) == CellType::Null {
            assert forall|i: int| 0 <= i < s.len() implies s[i] == CellType::Null by {
                if i < s.len() - 1 {
                    assert(p[i] == CellType::Null);
                }
            }
        }
    }
}

impl CellType {
    /// Running type `current_type` after observing `self`.
    pub(crate) fn infer_type(&self, current_type: Self) -> (r: Self)
        ensures
            r == merge(current_type, *self),
    {
        match self {
            Self::Null => current_type,
            Self::F64 => current_type.infer_from_f64(),
            Self::I64 => current_type.infer_from_i64(),
            _ => Self::String,
        }
    }

    /// Type after observing a decimal in a column of type `self`.
    fn infer_from_f64(self) -> (r: Self)
        ensures
            r == merge(self, CellType::F64),
    {
        if self == Self::String {
            return Self::String;
        }
        Self::F64
    }

    /// Type after observing an integer in a column of type `self`.
    pub fn infer_from_i64(self) -> (r: Self)
        ensures
            r == merge(self, CellType::I64),
    {
        if let Self::I64 | Self::Null = self {
            Self::I64
        } else {
            self
        }
    }
}

} // verus!
