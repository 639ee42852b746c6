//! The server's custom notification payloads: a path with the pretty
//! rendering of its syntax tree, pushed to the editor, and the request
//! parameters asking for such a rendering.

use vstd::prelude::*;

verus! {

/// Payload of the tree-preview notification: the document's path and the
/// rendered tree.
pub struct CustomNotificationParams {
    pub title: String,
    pub message: String,
}

/// Parameters of a tree-preview request: the document asked about.
pub struct AstPreviewRequestParams {
    pub path: String,
}

/// The tree-preview notification itself: a protocol marker whose one
/// form carries the parameters; the wire method name belongs to the
/// transport layer.
pub enum CustomNotification {
    Params(CustomNotificationParams),
}

impl CustomNotificationParams {
    pub fn new(title: String, message: String) -> (r: CustomNotificationParams)
        ensures
            r.title@ == title@,
            r.message@ == message@,
    {
        CustomNotificationParams { title, message }
    }
}

} // verus!
