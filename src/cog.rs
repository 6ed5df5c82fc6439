use vstd::prelude::*;

verus! {

/// A source backed by a cloud-optimized raster file.
pub struct CogSource {
    id: String,
    path: String,
}

impl CogSource {
    /// The identifier under which the source is published.
    pub closed spec fn id_view(&self) -> Seq<char> {
        self.id@
    }

    /// The path of the raster file.
    pub closed spec fn path_view(&self) -> Seq<char> {
        self.path@
    }

    /// A source for the raster file at `path`, published as `id`.
    pub fn new(id: String, path: String) -> (r: Self)
        ensures
            r.id_view() == id@,
            r.path_view() == path@,
    {
        CogSource { id, path }
    }

    /// The identifier under which the source is published.
    pub fn id(&self) -> (r: &str)
        ensures
            r@ == self.id_view(),
    {
        self.id.as_str()
    }

    /// The path of the raster file.
    pub fn path(&self) -> (r: &str)
        ensures
            r@ == self.path_view(),
    {
        self.path.as_str()
    }

    /// A raster source ignores query parameters.
    pub fn support_url_query(&self) -> (r: bool)
        ensures
            !r,
    {
        false
    }

    /// An independent handle to the same file.
    pub fn clone_source(&self) -> (r: Self)
        ensures
            r.id_view() == self.id_view(),
            r.path_view() == self.path_view(),
    {
        CogSource { id: self.id.clone(), path: self.path.clone() }
    }

    /// A text form for diagnostics; the path stands between double quotes.
    pub fn describe(&self) -> (r: String)
        ensures
            r@ == "CogSource { id: "@ + self.id_view() + ", path: \""@ + self.path_view() + "\" }"@,
    {
        let mut s = String::from_str("CogSource { id: ");
        s.append(self.id.as_str());
        s.append(", path: \"");
        s.append(self.path.as_str());
        s.append("\" }");
        s
    }
}

} // verus!
