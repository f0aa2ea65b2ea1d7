//! Object identity, per-call context, and the error types shared by the
//! server and client sides.

use vstd::prelude::*;

verus! {

/// Errors raised by registration and runtime operations inside the server.
#[derive(Debug)]
pub enum ServantError {
    NoSupportSerializable,
    DuplicateOid,
    Other(String),
}

/// Mathematical image of a `ServantError`.
#[verifier::ext_equal]
pub enum ServantErrorView {
    NoSupportSerializable,
    DuplicateOid,
    Other(Seq<char>),
}

impl View for ServantError {
    type V = ServantErrorView;

    open spec fn view(&self) -> ServantErrorView {
        match self {
            ServantError::NoSupportSerializable => ServantErrorView::NoSupportSerializable,
            ServantError::DuplicateOid => ServantErrorView::DuplicateOid,
            ServantError::Other(s) => ServantErrorView::Other(s@),
        }
    }
}

impl Clone for ServantError {
    fn clone(&self) -> (r: Self)
        ensures
            r@ == self@,
    {
        match self {
            ServantError::NoSupportSerializable => ServantError::NoSupportSerializable,
            ServantError::DuplicateOid => ServantError::DuplicateOid,
            ServantError::Other(s) => ServantError::Other(s.clone()),
        }
    }
}

impl PartialEq for ServantError {
    fn eq(&self, other: &ServantError) -> (r: bool) {
        match (self, other) {
            (ServantError::NoSupportSerializable, ServantError::NoSupportSerializable) => true,
            (ServantError::DuplicateOid, ServantError::DuplicateOid) => true,
            (ServantError::Other(a), ServantError::Other(b)) => *a == *b,
            _ => false,
        }
    }
}

impl vstd::std_specs::cmp::PartialEqSpecImpl for ServantError {
    open spec fn obeys_eq_spec() -> bool {
        true
    }

    open spec fn eq_spec(&self, other: &ServantError) -> bool {
        self@ == other@
    }
}

impl ServantError {
    /// Builds the `Other` variant from message text, as the original
    /// blanket conversion from strings did.
    pub fn other(msg: &str) -> (r: ServantError)
        ensures
            r@ == ServantErrorView::Other(msg@),
    {
        ServantError::Other(msg.to_owned())
    }

    /// A readable rendering of the error, offered in place of `Display`.
    pub fn to_text(&self) -> (r: String)
        ensures
            self@ matches ServantErrorView::Other(s) ==> r@ == s,
    {
        match self {
            ServantError::NoSupportSerializable => String::from_str("NoSupportSerializable"),
            ServantError::DuplicateOid => String::from_str("DuplicateOid"),
            ServantError::Other(s) => s.clone(),
        }
    }
}

pub type ServantResult<T> = Result<T, ServantError>;

/// Object identity: the pair `{name, category}`.
#[derive(Debug)]
pub struct Oid {
    name: String,
    category: String,
}

/// Mathematical image of an `Oid`.
#[verifier::ext_equal]
pub struct OidView {
    pub name: Seq<char>,
    pub category: Seq<char>,
}

impl View for Oid {
    type V = OidView;

    closed spec fn view(&self) -> OidView {
        OidView { name: self.name@, category: self.category@ }
    }
}

impl Oid {
    pub fn new(name: &str, category: &str) -> (r: Self)
        ensures
            r@ == (OidView { name: name@, category: category@ }),
    {
        Self { name: name.to_owned(), category: category.to_owned() }
    }

    pub fn name(&self) -> (r: &str)
        ensures
            r@ == self@.name,
    {
        self.name.as_str()
    }

    pub fn category(&self) -> (r: &str)
        ensures
            r@ == self@.category,
    {
        self.category.as_str()
    }
}

impl Clone for Oid {
    fn clone(&self) -> (r: Self)
        ensures
            r@ == self@,
    {
        Oid { name: self.name.clone(), category: self.category.clone() }
    }
}

impl PartialEq for Oid {
    fn eq(&self, other: &Oid) -> (r: bool) {
        self.name == other.name && self.category == other.category
    }
}

impl vstd::std_specs::cmp::PartialEqSpecImpl for Oid {
    open spec fn obeys_eq_spec() -> bool {
        true
    }

    open spec fn eq_spec(&self, other: &Oid) -> bool {
        self@ == other@
    }
}

/// An opaque user cookie carried in a `Context`.
pub type UserCookie = u64;

/// The peer address observed for a connection, as text.
pub type ConnectionId = String;

/// Optional per-call metadata carried on every request.
#[derive(Debug, Clone)]
pub struct Context {
    pub timeout_millisecond: Option<u64>,
    pub user_cookie: Option<UserCookie>,
    pub connection_id: Option<ConnectionId>,
    pub attributes: Vec<(String, String)>,
}

/// Mathematical image of a `Context`.
#[verifier::ext_equal]
pub struct ContextView {
    pub timeout_millisecond: Option<u64>,
    pub user_cookie: Option<u64>,
    pub connection_id: Option<Seq<char>>,
    pub attributes: Seq<(Seq<char>, Seq<char>)>,
}

impl View for Context {
    type V = ContextView;

    open spec fn view(&self) -> ContextView {
        ContextView {
            timeout_millisecond: self.timeout_millisecond,
            user_cookie: self.user_cookie,
            connection_id: match self.connection_id {
                Some(ref s) => Some(s@),
                None => None,
            },
            attributes: self.attributes@.map_values(|p: (String, String)| (p.0@, p.1@)),
        }
    }
}

impl Context {
    /// A context with every field absent: all defaults apply.
    pub fn new() -> (r: Self)
        ensures
            r@ == (ContextView {
                timeout_millisecond: None,
                user_cookie: None,
                connection_id: None,
                attributes: Seq::<(Seq<char>, Seq<char>)>::empty(),
            }),
    {
        let r = Context {
            timeout_millisecond: None,
            user_cookie: None,
            connection_id: None,
            attributes: Vec::new(),
        };
        proof {
            assert(r@.attributes =~= Seq::<(Seq<char>, Seq<char>)>::empty());
        }
        r
    }
}

/// A user-level failure carried on the wire inside a response.
#[derive(Debug)]
pub struct RemoteError {
    file: String,
    line: u32,
    desc: String,
}

/// Mathematical image of a `RemoteError`.
#[verifier::ext_equal]
pub struct RemoteErrorView {
    pub file: Seq<char>,
    pub line: u32,
    pub desc: Seq<char>,
}

impl View for RemoteError {
    type V = RemoteErrorView;

    closed spec fn view(&self) -> RemoteErrorView {
        RemoteErrorView { file: self.file@, line: self.line, desc: self.desc@ }
    }
}

impl RemoteError {
    pub fn new(file: String, line: u32, desc: String) -> (r: Self)
        ensures
            r@ == (RemoteErrorView { file: file@, line: line, desc: desc@ }),
    {
        Self { file, line, desc }
    }
}

impl Clone for RemoteError {
    fn clone(&self) -> (r: Self)
        ensures
            r@ == self@,
    {
        RemoteError { file: self.file.clone(), line: self.line, desc: self.desc.clone() }
    }
}

pub type RemoteResult<T> = Result<T, RemoteError>;

} // verus!
