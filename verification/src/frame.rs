//! The frame model: the closed set of values that travel on the wire, and the
//! mathematical value that each of them stands for.

use vstd::prelude::*;
use vstd::utf8::encode_utf8;
use crate::double::{DoubleView, RespDouble};

verus! {

/// The bytes of a text: its UTF-8 encoding.
pub open spec fn text_bytes(s: Seq<char>) -> Seq<u8> {
    encode_utf8(s)
}

/// The value of a frame. Texts are held as their UTF-8 bytes; the entries of
/// a map stand in the order in which they are written out.
pub enum FrameView {
    SimpleString(Seq<u8>),
    Error(Seq<u8>),
    Integer(i64),
    BulkString(Seq<u8>),
    Array(Seq<FrameView>),
    Null,
    Boolean(bool),
    Double(DoubleView),
    MapOf(Seq<(Seq<u8>, FrameView)>),
    SetOf(Seq<FrameView>),
}

/// Why a decode or a length probe did not give a frame.
#[derive(Debug, Clone, Copy, PartialEq, Eq)]
pub enum RespError {
    /// The bytes break the grammar in a way that no other variant names.
    InvalidFrame,
    /// The first byte is not the prefix of any frame type.
    InvalidFrameType,
    /// The length in a header is not a number, or is negative.
    InvalidFrameLength,
    /// The buffer does not hold a whole frame yet.
    NotComplete,
    /// An integer frame does not hold a number that fits in 64 bits.
    ParseIntError,
    /// A text is not valid UTF-8.
    Utf8Error,
    /// A double frame does not hold a decimal number.
    ParseFloatError,
}

#[derive(Debug, Clone, PartialEq, Eq)]
pub struct SimpleString(pub String);

#[derive(Debug, Clone, PartialEq, Eq)]
pub struct SimpleError(pub String);

#[derive(Debug, Clone, PartialEq, Eq)]
pub struct BulkString(pub Vec<u8>);

#[derive(Debug, Clone, Copy, PartialEq, Eq)]
pub struct RespNull;

#[derive(Debug, PartialEq)]
pub struct RespArray(pub Vec<RespFrame>);

#[derive(Debug, PartialEq)]
pub struct RespSet(pub Vec<RespFrame>);

/// A map from text keys to frames, held in ascending order of the keys' bytes.
#[derive(Debug, PartialEq)]
pub struct RespMap {
    pub(crate) entries: Vec<(String, RespFrame)>,
}

#[derive(Debug, PartialEq)]
pub enum RespFrame {
    SimpleString(SimpleString),
    Error(SimpleError),
    Integer(i64),
    BulkString(BulkString),
    Array(RespArray),
    Null(RespNull),
    Boolean(bool),
    Double(RespDouble),
    MapOf(RespMap),
    SetOf(RespSet),
}

impl View for SimpleString {
    type V = Seq<u8>;

    open spec fn view(&self) -> Seq<u8> {
        text_bytes(self.0@)
    }
}

impl View for SimpleError {
    type V = Seq<u8>;

    open spec fn view(&self) -> Seq<u8> {
        text_bytes(self.0@)
    }
}

impl View for BulkString {
    type V = Seq<u8>;

    open spec fn view(&self) -> Seq<u8> {
        self.0@
    }
}

/// The values of the frames of `v`, in order.
pub open spec fn frames_view(v: Vec<RespFrame>) -> Seq<FrameView>
    decreases v,
{
    Seq::new(
        v.len() as nat,
        |i: int|
            if 0 <= i < v.len() {
                v[i].view()
            } else {
                FrameView::Null
            },
    )
}

/// The keys' bytes and the values of the entries of `v`, in order.
pub open spec fn entries_view(v: Vec<(String, RespFrame)>) -> Seq<(Seq<u8>, FrameView)>
    decreases v,
{
    Seq::new(
        v.len() as nat,
        |i: int|
            if 0 <= i < v.len() {
                (text_bytes(v[i].0@), v[i].1.view())
            } else {
                (Seq::empty(), FrameView::Null)
            },
    )
}

impl View for RespFrame {
    type V = FrameView;

    open spec fn view(&self) -> FrameView
        decreases self,
    {
        match self {
            RespFrame::SimpleString(s) => FrameView::SimpleString(s@),
            RespFrame::Error(s) => FrameView::Error(s@),
            RespFrame::Integer(i) => FrameView::Integer(*i),
            RespFrame::BulkString(b) => FrameView::BulkString(b@),
            RespFrame::Array(a) => FrameView::Array(frames_view(a.0)),
            RespFrame::Null(_) => FrameView::Null,
            RespFrame::Boolean(b) => FrameView::Boolean(*b),
            RespFrame::Double(d) => FrameView::Double(d@),
            RespFrame::MapOf(m) => FrameView::MapOf(m@),
            RespFrame::SetOf(s) => FrameView::SetOf(frames_view(s.0)),
        }
    }
}

impl View for RespArray {
    type V = Seq<FrameView>;

    open spec fn view(&self) -> Seq<FrameView> {
        frames_view(self.0)
    }
}

impl View for RespSet {
    type V = Seq<FrameView>;

    open spec fn view(&self) -> Seq<FrameView> {
        frames_view(self.0)
    }
}

impl View for RespMap {
    type V = Seq<(Seq<u8>, FrameView)>;

    open(crate) spec fn view(&self) -> Seq<(Seq<u8>, FrameView)>
        decreases self,
    {
        entries_view(self.entries)
    }
}

impl SimpleString {
    /// The simple string with the text `s`.
    pub fn new(s: String) -> (r: Self)
        ensures
            r@ == text_bytes(s@),
            r.0 == s,
    {
        SimpleString(s)
    }
}

impl SimpleError {
    /// The error with the text `s`.
    pub fn new(s: String) -> (r: Self)
        ensures
            r@ == text_bytes(s@),
            r.0 == s,
    {
        SimpleError(s)
    }
}

impl BulkString {
    /// The bulk string with the bytes `s`.
    pub fn new(s: Vec<u8>) -> (r: Self)
        ensures
            r@ == s@,
            r.0 == s,
    {
        BulkString(s)
    }
}

impl RespArray {
    /// The array with the frames `s`, in order.
    pub fn new(s: Vec<RespFrame>) -> (r: Self)
        ensures
            r@ == frames_view(s),
            r.0 == s,
    {
        RespArray(s)
    }
}

impl RespSet {
    /// The set with the frames `s`, in the order in which they are written.
    pub fn new(s: Vec<RespFrame>) -> (r: Self)
        ensures
            r@ == frames_view(s),
            r.0 == s,
    {
        RespSet(s)
    }
}

/// A copy of the frames of `v`.
#[verifier::loop_isolation(false)]
fn clone_frames(v: &Vec<RespFrame>) -> (r: Vec<RespFrame>)
    ensures
        frames_view(r) == frames_view(*v),
    decreases *v, 1nat,
{
    let mut out: Vec<RespFrame> = Vec::new();
    let mut i: usize = 0;
    while i < v.len()
        invariant
            i <= v.len(),
            out.len() == i,
            forall|j: int| 0 <= j < i ==> out[j].view() == v[j].view(),
        decreases v.len() - i,
    {
        proof {
            let ghost e = v[i as int];
        }
        out.push(clone_frame(&v[i]));
        i = i + 1;
    }
    assert(frames_view(out) =~= frames_view(*v));
    out
}

/// A copy of the entries of `v`.
#[verifier::loop_isolation(false)]
fn clone_entries(v: &Vec<(String, RespFrame)>) -> (r: Vec<(String, RespFrame)>)
    ensures
        entries_view(r) == entries_view(*v),
    decreases *v, 1nat,
{
    let mut out: Vec<(String, RespFrame)> = Vec::new();
    let mut i: usize = 0;
    while i < v.len()
        invariant
            i <= v.len(),
            out.len() == i,
            forall|j: int| 0 <= j < i ==> out[j].0@ == v[j].0@ && out[j].1.view() == v[j].1.view(),
        decreases v.len() - i,
    {
        proof {
            let ghost e = v[i as int];
        }
        out.push((v[i].0.clone(), clone_frame(&v[i].1)));
        i = i + 1;
    }
    assert(entries_view(out) =~= entries_view(*v));
    out
}

/// A copy of `f`: a frame with the same value.
pub fn clone_frame(f: &RespFrame) -> (r: RespFrame)
    ensures
        r@ == f@,
    decreases *f, 0nat,
{
    match f {
        RespFrame::SimpleString(s) => RespFrame::SimpleString(SimpleString(s.0.clone())),
        RespFrame::Error(s) => RespFrame::Error(SimpleError(s.0.clone())),
        RespFrame::Integer(v) => RespFrame::Integer(*v),
        RespFrame::BulkString(b) => RespFrame::BulkString(BulkString(b.0.clone())),
        RespFrame::Array(a) => RespFrame::Array(RespArray(clone_frames(&a.0))),
        RespFrame::Null(_) => RespFrame::Null(RespNull),
        RespFrame::Boolean(b) => RespFrame::Boolean(*b),
        RespFrame::Double(d) => RespFrame::Double(*d),
        RespFrame::MapOf(m) => RespFrame::MapOf(RespMap { entries: clone_entries(&m.entries) }),
        RespFrame::SetOf(s) => RespFrame::SetOf(RespSet(clone_frames(&s.0))),
    }
}

impl Clone for RespFrame {
    fn clone(&self) -> (r: Self)
        ensures
            r@ == self@,
    {
        clone_frame(self)
    }
}

impl Clone for RespArray {
    fn clone(&self) -> (r: Self)
        ensures
            r@ == self@,
    {
        RespArray(clone_frames(&self.0))
    }
}

impl Clone for RespSet {
    fn clone(&self) -> (r: Self)
        ensures
            r@ == self@,
    {
        RespSet(clone_frames(&self.0))
    }
}

impl Clone for RespMap {
    fn clone(&self) -> (r: Self)
        ensures
            r@ == self@,
    {
        RespMap { entries: clone_entries(&self.entries) }
    }
}

} // verus!
