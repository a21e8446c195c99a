//! Routes for users.

use vstd::prelude::*;

use crate::pattern::pattern_of;
use crate::request::Request;
use crate::response::{Response, ResponseView};
use crate::router::{RouteHandle, RouteKind, RouteView, Router, RouterView};
use crate::text::{parse_u64, parsed};

verus! {

/// The numbers of the handlers for users.
#[derive(Clone, Copy, Debug, PartialEq, Eq, Structural)]
pub struct UserHandlers {
    pub list: u64,
    pub show: u64,
    pub create: u64,
    pub update: u64,
    pub remove: u64,
}

/// The routes for users.
pub open spec fn user_routes(h: UserHandlers) -> Seq<RouteView> {
    seq![
        RouteView::plain("GET"@, "/"@, h.list, RouteKind::Http),
        RouteView::plain("GET"@, "/:id"@, h.show, RouteKind::Http),
        RouteView::plain("POST"@, "/"@, h.create, RouteKind::Http),
        RouteView::plain("PUT"@, "/:id"@, h.update, RouteKind::Http),
        RouteView::plain("DELETE"@, "/:id"@, h.remove, RouteKind::Http),
    ]
}

/// The router for users. Its paths go on from where it is mounted.
pub fn router(h: UserHandlers) -> (r: Router)
    ensures
        r.wf(),
        r@ == (RouterView { routes: user_routes(h), middlewares: Seq::empty() }),
{
    let mut r: Router = Router::new();
    let _one: RouteHandle<'_> = r.get("/", h.list);
    let _two: RouteHandle<'_> = r.get("/:id", h.show);
    let _three: RouteHandle<'_> = r.post("/", h.create);
    let _four: RouteHandle<'_> = r.put("/:id", h.update);
    let _five: RouteHandle<'_> = r.delete("/:id", h.remove);
    assert(r@.routes =~= user_routes(h));
    r
}

/// The id in the path, or what stands for none.
pub open spec fn id_in(req: Request, none: Seq<char>) -> Seq<char> {
    match req.params.lookup("id"@) {
        Some(id) => id,
        None => none,
    }
}

/// Says which user was asked for.
pub fn show(req: &Request) -> (r: Response)
    requires
        req.wf(),
    ensures
        r@ == ResponseView::text("Requested user: "@ + id_in(*req, "?"@)),
{
    let id: &str = match req.param("id") {
        Some(id) => id,
        None => "?",
    };
    let text: String = "Requested user: ".to_owned().concat(id);
    Response::send(text.as_str())
}

/// Says which user was deleted.
pub fn remove(req: &Request) -> (r: Response)
    requires
        req.wf(),
    ensures
        r@ == ResponseView::text("User "@ + id_in(*req, "?"@) + " deleted"@),
{
    let id: &str = match req.param("id") {
        Some(id) => id,
        None => "?",
    };
    let text: String = "User ".to_owned().concat(id).concat(" deleted");
    Response::send(text.as_str())
}

/// The id of a user that is updated: that in the path, where it is one, else the user's
/// own.
pub fn updated_id(req: &Request, own: u32) -> (r: u32)
    requires
        req.wf(),
    ensures
        r == (match parsed(id_in(*req, "0"@), u32::MAX as nat) {
            Some(id) => id as u32,
            None => own,
        }),
{
    let id: &str = match req.param("id") {
        Some(id) => id,
        None => "0",
    };
    match parse_u64(id) {
        Some(n) => if n <= u32::MAX as u64 {
            n as u32
        } else {
            own
        },
        None => own,
    }
}

/// Each action on users has its method and its path: one for all users and those that take
/// an id, with the handler that was given for it and nothing around it.
pub proof fn law_users_have_their_routes(h: UserHandlers, i: int)
    ensures
        user_routes(h).len() == 5,
        0 <= i < 5 ==> user_routes(h)[i].middlewares.len() == 0 && user_routes(h)[i].kind
            == RouteKind::Http,
        user_routes(h)[0].method == "GET"@ && user_routes(h)[0].pattern == pattern_of("/"@)
            && user_routes(h)[0].handler == h.list,
        user_routes(h)[1].method == "GET"@ && user_routes(h)[1].pattern == pattern_of("/:id"@)
            && user_routes(h)[1].handler == h.show,
        user_routes(h)[2].method == "POST"@ && user_routes(h)[2].pattern == pattern_of("/"@)
            && user_routes(h)[2].handler == h.create,
        user_routes(h)[3].method == "PUT"@ && user_routes(h)[3].pattern == pattern_of("/:id"@)
            && user_routes(h)[3].handler == h.update,
        user_routes(h)[4].method == "DELETE"@ && user_routes(h)[4].pattern == pattern_of("/:id"@)
            && user_routes(h)[4].handler == h.remove,
{
}

/// The id is the parameter of that name.
pub proof fn law_ids_stand_in_the_path(req: Request, none: Seq<char>)
    ensures
        req.params.lookup("id"@) matches Some(id) ==> id_in(req, none) == id,
        req.params.lookup("id"@) is None ==> id_in(req, none) == none,
{
}

} // verus!
