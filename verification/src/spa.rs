//! Routing of the single-page application: which requests are served as
//! they are and which are rewritten to the root document.
//!
//! Asset requests and canvas websocket upgrades pass through; any other
//! path that is not the root and was not requested by the application
//! itself is rewritten to the root, where the application boots and takes
//! over.  The canvas websocket paths are recognized exactly: the fixed
//! prefix, a canvas id of [`CANVAS_ID_LENGTH`] hexadecimal characters, and
//! at most a trailing slash.

use vstd::prelude::*;

use crate::canvas::store::CANVAS_ID_LENGTH;

verus! {

/// Where a request goes.
#[derive(Clone, Copy, PartialEq, Eq, Structural, Debug)]
pub enum SPARoute {
    /// Serve the path as requested.
    Forward,
    /// Rewrite the request to the root document.
    RewriteToRoot,
}

/// The path prefix of every canvas websocket upgrade.
pub open spec fn ws_canvas_prefix() -> Seq<u8> {
    seq![('/' as u8), ('w' as u8), ('s' as u8), ('/' as u8), ('c' as u8), ('a' as u8), ('n' as u8), ('v' as u8), ('a' as u8), ('s' as u8), ('/' as u8)]
}

/// The path prefix of every static asset.
pub open spec fn assets_prefix() -> Seq<u8> {
    seq![('/' as u8), ('a' as u8), ('s' as u8), ('s' as u8), ('e' as u8), ('t' as u8), ('s' as u8)]
}

/// The root path.
pub open spec fn root_path() -> Seq<u8> {
    seq![('/' as u8)]
}

/// A character of the canvas-id alphabet.
pub open spec fn is_canvas_id_byte(b: u8) -> bool {
    (('0' as u8) <= b && b <= ('9' as u8)) || (('a' as u8) <= b && b <= ('f' as u8))
}

/// Whether a path addresses a canvas websocket: the fixed prefix, exactly
/// [`CANVAS_ID_LENGTH`] canvas-id characters, and at most one trailing
/// slash.
pub open spec fn is_canvas_websocket_path(p: Seq<u8>) -> bool {
    let pre = ws_canvas_prefix();
    let n = pre.len() + CANVAS_ID_LENGTH as int;
    &&& (p.len() == n || (p.len() == n + 1 && p[n] == ('/' as u8)))
    &&& p.take(pre.len() as int) == pre
    &&& forall|i: int| pre.len() <= i < n ==> is_canvas_id_byte(#[trigger] p[i])
}

/// Where the single-page application sends a request: assets and canvas
/// websocket upgrades pass through, the root passes through, a request
/// marked as coming from the application itself passes through, and
/// everything else is rewritten to the root document.
pub open spec fn spec_route(p: Seq<u8>, has_spa_header: bool) -> SPARoute {
    if p.len() >= assets_prefix().len() && p.take(assets_prefix().len() as int)
        == assets_prefix() {
        SPARoute::Forward
    } else if is_canvas_websocket_path(p) {
        SPARoute::Forward
    } else if p != root_path() && !has_spa_header {
        SPARoute::RewriteToRoot
    } else {
        SPARoute::Forward
    }
}

/// The single-page-app router.
pub struct SPAService;

/// Whether `p` starts with `prefix`.
#[verifier::loop_isolation(false)]
fn has_prefix(p: &Vec<u8>, prefix: &Vec<u8>) -> (r: bool)
    ensures
        r == (p@.len() >= prefix@.len() && p@.take(prefix@.len() as int) == prefix@),
{
    if p.len() < prefix.len() {
        return false;
    }
    let mut i: usize = 0;
    while i < prefix.len()
        invariant
            i <= prefix.len() <= p.len(),
            forall|j: int| 0 <= j < i ==> p@[j] == prefix@[j],
        decreases prefix.len() - i,
    {
        if p[i] != prefix[i] {
            proof {
                assert(p@.take(prefix@.len() as int)[i as int] != prefix@[i as int]);
            }
            return false;
        }
        i = i + 1;
    }
    proof {
        assert(p@.take(prefix@.len() as int) =~= prefix@);
    }
    true
}

impl SPAService {
    /// Whether a path addresses a canvas websocket, per
    /// [`is_canvas_websocket_path`].
    #[verifier::loop_isolation(false)]
    pub fn is_canvas_websocket_path(p: &Vec<u8>) -> (r: bool)
        ensures
            r == is_canvas_websocket_path(p@),
    {
        let mut prefix: Vec<u8> = Vec::new();
        prefix.push(('/' as u8));
        prefix.push(('w' as u8));
        prefix.push(('s' as u8));
        prefix.push(('/' as u8));
        prefix.push(('c' as u8));
        prefix.push(('a' as u8));
        prefix.push(('n' as u8));
        prefix.push(('v' as u8));
        prefix.push(('a' as u8));
        prefix.push(('s' as u8));
        prefix.push(('/' as u8));
        proof {
            assert(prefix@ =~= ws_canvas_prefix());
        }
        let n = prefix.len() + CANVAS_ID_LENGTH;
        if !(p.len() == n || (p.len() == n + 1 && p[n] == ('/' as u8))) {
            return false;
        }
        if !has_prefix(p, &prefix) {
            return false;
        }
        let mut i: usize = prefix.len();
        while i < n
            invariant
                prefix@.len() <= i <= n,
                n == prefix@.len() + CANVAS_ID_LENGTH,
                forall|j: int| prefix@.len() <= j < i ==> is_canvas_id_byte(#[trigger] p@[j]),
            decreases n - i,
        {
            let b = p[i];
            if !((('0' as u8) <= b && b <= ('9' as u8)) || (('a' as u8) <= b && b <= ('f' as u8))) {
                return false;
            }
            i = i + 1;
        }
        true
    }

    /// Decides where a request goes, per [`spec_route`].
    pub fn route(path: &Vec<u8>, has_spa_header: bool) -> (r: SPARoute)
        ensures
            r == spec_route(path@, has_spa_header),
    {
        let mut assets: Vec<u8> = Vec::new();
        assets.push(('/' as u8));
        assets.push(('a' as u8));
        assets.push(('s' as u8));
        assets.push(('s' as u8));
        assets.push(('e' as u8));
        assets.push(('t' as u8));
        assets.push(('s' as u8));
        proof {
            assert(assets@ =~= assets_prefix());
        }
        if has_prefix(path, &assets) {
            return SPARoute::Forward;
        }
        if Self::is_canvas_websocket_path(path) {
            return SPARoute::Forward;
        }
        let is_root = path.len() == 1 && path[0] == ('/' as u8);
        proof {
            if is_root {
                assert(path@ =~= root_path());
            }
            if path@ == root_path() {
                assert(path@.len() == 1 && path@[0] == ('/' as u8));
            }
        }
        if !is_root && !has_spa_header {
            return SPARoute::RewriteToRoot;
        }
        SPARoute::Forward
    }
}

} // verus!
