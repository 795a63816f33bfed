//! The entity model: one stored record per representable form of a resource.

use vstd::prelude::*;

verus! {

/// The payload of an entity: either the raw bytes of a representation, or
/// the URL path a client should be redirected to.
pub enum Payload {
    Body(Vec<u8>),
    Redirect(String),
}

/// One representable form of the resource at a URL path: a MIME type, an
/// optional content-coding (absence means the identity coding), and a
/// payload.
pub struct Entity {
    pub mime_type: String,
    pub encoding: Option<String>,
    pub payload: Payload,
}

/// The mathematical value of a [`Payload`].
pub enum PayloadView {
    Body(Seq<u8>),
    Redirect(Seq<char>),
}

/// The mathematical value of an [`Entity`].
pub struct EntityView {
    pub mime_type: Seq<char>,
    pub encoding: Option<Seq<char>>,
    pub payload: PayloadView,
}

impl View for Payload {
    type V = PayloadView;

    open spec fn view(&self) -> PayloadView {
        match self {
            Payload::Body(b) => PayloadView::Body(b@),
            Payload::Redirect(t) => PayloadView::Redirect(t@),
        }
    }
}

impl DeepView for Payload {
    type V = PayloadView;

    open spec fn deep_view(&self) -> PayloadView {
        self.view()
    }
}

impl View for Entity {
    type V = EntityView;

    open spec fn view(&self) -> EntityView {
        EntityView {
            mime_type: self.mime_type@,
            encoding: match self.encoding {
                Option::Some(s) => Option::Some(s@),
                Option::None => Option::None,
            },
            payload: self.payload@,
        }
    }
}

impl DeepView for Entity {
    type V = EntityView;

    open spec fn deep_view(&self) -> EntityView {
        self.view()
    }
}

impl Entity {
    /// An entity that carries content bytes under the given MIME type, in
    /// the identity coding.
    pub fn with_body(mime_type: String, body: Vec<u8>) -> (r: Entity)
        ensures
            r@ == (EntityView {
                mime_type: mime_type@,
                encoding: Option::None,
                payload: PayloadView::Body(body@),
            }),
    {
        Entity { mime_type, encoding: Option::None, payload: Payload::Body(body) }
    }

    /// An entity that redirects to the given URL path; redirects are served
    /// as `text/html` in the identity coding.
    pub fn with_redirect(mime_type: String, target: String) -> (r: Entity)
        ensures
            r@ == (EntityView {
                mime_type: mime_type@,
                encoding: Option::None,
                payload: PayloadView::Redirect(target@),
            }),
    {
        Entity { mime_type, encoding: Option::None, payload: Payload::Redirect(target) }
    }

    /// A copy of this entity, equal in value.
    pub fn duplicate(&self) -> (r: Entity)
        ensures
            r@ == self@,
    {
        let payload = match &self.payload {
            Payload::Body(b) => Payload::Body(b.clone()),
            Payload::Redirect(t) => Payload::Redirect(t.clone()),
        };
        let encoding = match &self.encoding {
            Option::Some(s) => Option::Some(s.clone()),
            Option::None => Option::None,
        };
        Entity { mime_type: self.mime_type.clone(), encoding, payload }
    }
}

} // verus!
