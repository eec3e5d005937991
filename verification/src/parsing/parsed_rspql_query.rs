use vstd::prelude::*;

verus! {

/// The relation-to-stream operator of a registered query.
#[derive(Debug, Clone)]
pub enum Operator {
    RStream,
    IStream,
    DStream,
}

/// The registered output of an RSP-QL query.
#[derive(Debug, Clone)]
pub struct R2S {
    pub operator: Operator,
    pub name: String,
}

/// A stream-to-relation window definition.
#[derive(Debug, Clone)]
pub struct WindowDefinition {
    pub window_name: String,
    pub stream_name: String,
    pub width: i64,
    pub slide: i64,
}

/// The view of a window definition.
pub ghost struct WindowView {
    pub window_name: Seq<char>,
    pub stream_name: Seq<char>,
    pub width: i64,
    pub slide: i64,
}

impl View for WindowDefinition {
    type V = WindowView;

    open spec fn view(&self) -> WindowView {
        WindowView {
            window_name: self.window_name@,
            stream_name: self.stream_name@,
            width: self.width,
            slide: self.slide,
        }
    }
}

/// The views of a list of window definitions.
pub open spec fn window_views(ws: Seq<WindowDefinition>) -> Seq<WindowView> {
    ws.map_values(|w: WindowDefinition| w@)
}

/// An RSP-QL query reduced to its parts: the embedded SPARQL text, the
/// relation-to-stream operator, and the stream-to-relation windows.
#[derive(Debug, Clone)]
pub struct ParsedQuery {
    pub sparql_query: String,
    pub r2s: R2S,
    pub s2r: Vec<WindowDefinition>,
}

impl ParsedQuery {
    /// A query with the given SPARQL text, a default `RStream` output named
    /// `undefined`, and no windows.
    pub fn new(sparql_query: String) -> (r: Self)
        ensures
            r.sparql_query@ == sparql_query@,
            r.r2s.operator is RStream,
            r.r2s.name@ == "undefined"@,
            r.s2r@.len() == 0,
    {
        ParsedQuery {
            sparql_query,
            r2s: R2S { operator: Operator::RStream, name: crate::text::string_from_chars(
                &crate::text::chars_of("undefined"),
            ) },
            s2r: Vec::new(),
        }
    }

    pub fn set_sparql_query(&mut self, query: String)
        ensures
            final(self).sparql_query@ == query@,
            final(self).r2s == old(self).r2s,
            final(self).s2r == old(self).s2r,
    {
        self.sparql_query = query;
    }

    pub fn set_r2s(&mut self, operator: Operator, name: String)
        ensures
            final(self).r2s.operator == operator,
            final(self).r2s.name@ == name@,
            final(self).sparql_query == old(self).sparql_query,
            final(self).s2r == old(self).s2r,
    {
        self.r2s = R2S { operator, name };
    }

    pub fn add_s2r_window(&mut self, window: WindowDefinition)
        ensures
            final(self).s2r@ == old(self).s2r@.push(window),
            final(self).sparql_query == old(self).sparql_query,
            final(self).r2s == old(self).r2s,
    {
        self.s2r.push(window);
    }
}

} // verus!
