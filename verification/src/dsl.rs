//! A small language of conditions on the nodes of the store, written out as
//! the text of a `where` clause.

use vstd::prelude::*;

verus! {

/// A column of a node.
#[derive(Clone, Copy, Debug)]
pub enum NodeFieldName {
    Name,
    Type,
    Meta,
    Data,
}

/// How a column is compared with a value.
#[derive(Clone, Copy, Debug)]
pub enum FilterOp {
    Equals,
    Nequals,
    Like,
    In,
}

/// What can be written out as the text of a condition.
pub trait ToSql {
    /// The text.
    spec fn sql(&self) -> Seq<char>;

    /// Writes the text out.
    fn to_sql(&self) -> (text: String)
        ensures
            text@ == self.sql(),
    ;
}

/// A comparison of a field with a value.
#[derive(Debug)]
pub struct FieldFilter<T: ToSql> {
    pub op: FilterOp,
    pub field: T,
    pub val: String,
}

/// The name of a column.
pub open spec fn column_text(field: NodeFieldName) -> Seq<char> {
    match field {
        NodeFieldName::Name => "name"@,
        NodeFieldName::Type => "type"@,
        NodeFieldName::Meta => "meta"@,
        NodeFieldName::Data => "data"@,
    }
}

/// The sign of a comparison.
pub open spec fn op_text(op: FilterOp) -> Seq<char> {
    match op {
        FilterOp::Equals => "="@,
        FilterOp::Nequals => "!="@,
        FilterOp::Like => "LIKE"@,
        FilterOp::In => "IN"@,
    }
}

/// A comparison in brackets: the field, the sign and the value with a blank
/// between each two.
pub open spec fn comparison_text(field: Seq<char>, op: FilterOp, val: Seq<char>) -> Seq<char> {
    seq!['('] + field + seq![' '] + op_text(op) + seq![' '] + val + seq![')']
}

impl NodeFieldName {
    /// The condition that the column equals `term`.
    pub fn eq(self, term: &str) -> (filter: FieldFilter<NodeFieldName>)
        ensures
            filter.sql() == comparison_text(column_text(self), FilterOp::Equals, term@),
    {
        FieldFilter { op: FilterOp::Equals, field: self, val: String::from_str(term) }
    }

    /// The condition that the column differs from `term`.
    pub fn ne(self, term: &str) -> (filter: FieldFilter<NodeFieldName>)
        ensures
            filter.sql() == comparison_text(column_text(self), FilterOp::Nequals, term@),
    {
        FieldFilter { op: FilterOp::Nequals, field: self, val: String::from_str(term) }
    }

    /// The condition that the column is like the pattern `term`.
    pub fn like(self, term: &str) -> (filter: FieldFilter<NodeFieldName>)
        ensures
            filter.sql() == comparison_text(column_text(self), FilterOp::Like, term@),
    {
        FieldFilter { op: FilterOp::Like, field: self, val: String::from_str(term) }
    }

    /// The condition that the column is among the values `term`.
    pub fn is_in(self, term: &str) -> (filter: FieldFilter<NodeFieldName>)
        ensures
            filter.sql() == comparison_text(column_text(self), FilterOp::In, term@),
    {
        FieldFilter { op: FilterOp::In, field: self, val: String::from_str(term) }
    }
}

impl ToSql for NodeFieldName {
    open spec fn sql(&self) -> Seq<char> {
        column_text(*self)
    }

    fn to_sql(&self) -> (text: String) {
        match self {
            NodeFieldName::Name => String::from_str("name"),
            NodeFieldName::Type => String::from_str("type"),
            NodeFieldName::Meta => String::from_str("meta"),
            NodeFieldName::Data => String::from_str("data"),
        }
    }
}

impl<T: ToSql> ToSql for FieldFilter<T> {
    open spec fn sql(&self) -> Seq<char> {
        comparison_text(self.field.sql(), self.op, self.val@)
    }

    fn to_sql(&self) -> (text: String) {
        let opstr = match self.op {
            FilterOp::Equals => "=",
            FilterOp::Nequals => "!=",
            FilterOp::Like => "LIKE",
            FilterOp::In => "IN",
        };
        let mut text = String::from_str("(");
        let field = self.field.to_sql();
        text.append(field.as_str());
        text.append(" ");
        text.append(opstr);
        text.append(" ");
        text.append(self.val.as_str());
        text.append(")");
        proof {
            reveal_strlit("(");
            reveal_strlit(" ");
            reveal_strlit(")");
            assert("("@ =~= seq!['(']);
            assert(" "@ =~= seq![' ']);
            assert(")"@ =~= seq![')']);
            assert(text@ =~= self.sql());
        }
        text
    }
}

} // verus!
