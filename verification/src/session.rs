//! A browsing session: one page in a browser context of its own, kept across calls and
//! recovered when the browser it lived in is gone. `P` stands for the page, `C` for the
//! context.
use crate::json::{reread_each, views, Json, JsonView};
use crate::storage::{
    cookie_params, cookie_views, entry_views, law_every_saved_cookie_is_set, restores, set_cookies,
    sets_again, CookieParam, RestorePlan, StorageStep,
};
use crate::text::{opt_str, opt_text, same};
use vstd::prelude::*;

verus! {

/// Automatic answer to JavaScript dialogs.
pub struct DialogBehavior {
    pub accept: bool,
    pub prompt_text: Option<String>,
}

/// The state of a session.
pub struct SessionState<P, C> {
    pub page: Option<P>,
    pub context_id: Option<C>,
    /// The browser launch that `page` belongs to.
    pub generation: u64,
    pub last_url: Option<String>,
    /// Whether dialogs of the current page are being answered.
    pub dialog_armed: bool,
    /// How they are answered.
    pub dialog: Option<DialogBehavior>,
    /// Restored localStorage entries that wait for a navigation to their origin.
    pub pending_localstorage: Option<(String, Vec<(String, String)>)>,
    /// The baseline of the next snapshot difference.
    pub last_snapshot: Option<String>,
    /// Whether navigations leave heavy resources out.
    pub lite_default: bool,
    /// The cookies seen after the last navigation.
    pub saved_cookies: Vec<Json>,
    /// Whether a page was lost and its cookies have not been replayed yet.
    pub restore_pending: bool,
}

/// What an operation has to do to get at its page.
pub enum PageStep {
    /// The page is there.
    Reuse,
    /// Create a page; `lost` tells whether an earlier one went with its browser.
    Create { lost: bool },
    /// The page is gone and the operation cannot do without it.
    Lost(String),
}

/// The model of [`PageStep`].
pub enum PageAnswer {
    Reuse,
    Create { lost: bool },
    Lost,
}

/// Why a navigation opens a URL.
#[derive(Clone, Copy, Debug, PartialEq, Eq, Structural)]
pub enum Purpose {
    /// To look at it: the session's own setting counts.
    Navigate,
    /// To read its text: pixels are left out.
    Text,
    /// To capture it: nothing is left out.
    Visual,
}

// -- transitions ------------------------------------------------------------------------------
impl<P, C> SessionState<P, C> {
    /// The session has a page in the given browser launch.
    pub open spec fn live(self, generation: u64) -> bool {
        self.page is Some && self.generation == generation
    }

    /// The answer to an operation that needs the page.
    pub open spec fn page_answer(self, generation: u64, navigating: bool) -> PageAnswer {
        if self.live(generation) {
            PageAnswer::Reuse
        } else if self.page is Some && !navigating {
            PageAnswer::Lost
        } else {
            PageAnswer::Create { lost: self.page is Some }
        }
    }

    /// The state after an operation asked for the page.
    pub open spec fn ensured(self, generation: u64) -> SessionState<P, C> {
        if self.live(generation) {
            self
        } else if self.page is Some {
            SessionState {
                page: None,
                context_id: None,
                last_url: None,
                restore_pending: true,
                ..self
            }
        } else {
            SessionState { context_id: None, ..self }
        }
    }

    /// The state after a page was created.
    pub open spec fn created(self, page: P, context_id: Option<C>, generation: u64) -> SessionState<
        P,
        C,
    > {
        SessionState {
            page: Some(page),
            context_id,
            generation,
            dialog_armed: false,
            restore_pending: false,
            ..self
        }
    }

    /// A session that was not used yet.
    pub fn new() -> (res: SessionState<P, C>)
        ensures
            res.page is None,
            res.context_id is None,
            res.generation == 0,
            res.last_url is None,
            !res.dialog_armed,
            res.dialog is None,
            res.pending_localstorage is None,
            res.last_snapshot is None,
            !res.lite_default,
            res.saved_cookies@.len() == 0,
            !res.restore_pending,
    {
        SessionState {
            page: None,
            context_id: None,
            generation: 0,
            last_url: None,
            dialog_armed: false,
            dialog: None,
            pending_localstorage: None,
            last_snapshot: None,
            lite_default: false,
            saved_cookies: Vec::new(),
            restore_pending: false,
        }
    }

    /// Decides how an operation gets at the page, given the launch that runs now. When the
    /// browser was reaped or has crashed since, the page is gone: a navigating operation gets
    /// a new one, any other an error that says to navigate again.
    pub fn ensure_page(&mut self, generation: u64, navigating: bool) -> (res: PageStep)
        ensures
            *final(self) == old(self).ensured(generation),
            match res {
                PageStep::Reuse => old(self).page_answer(generation, navigating) is Reuse,
                PageStep::Create { lost } => old(self).page_answer(generation, navigating) == (
                PageAnswer::Create { lost }),
                PageStep::Lost(message) => old(self).page_answer(generation, navigating) is Lost
                    && message@
                    == "the browser was restarted (idle reap or crash) and this session's page state was lost — call browser_navigate to start again"@,
            },
            old(self).page is Some && old(self).generation == generation ==> res is Reuse
                && *final(self) == *old(self),
            old(self).page is Some && old(self).generation != generation ==> final(self).page is None
                && final(self).context_id is None && final(self).last_url is None && final(self).restore_pending,
            old(self).page is Some && old(self).generation != generation && !navigating ==> res is Lost,
            old(self).page is Some && old(self).generation != generation && navigating ==> res is Create
                && res->lost,
            old(self).page is None ==> res is Create && !res->lost && final(self).page is None
                && final(self).context_id is None && final(self).last_url == old(self).last_url
                && final(self).restore_pending == old(self).restore_pending,
            final(self).saved_cookies == old(self).saved_cookies,
            final(self).generation == old(self).generation,
            final(self).dialog == old(self).dialog,
            final(self).dialog_armed == old(self).dialog_armed,
            final(self).pending_localstorage == old(self).pending_localstorage,
            final(self).last_snapshot == old(self).last_snapshot,
            final(self).lite_default == old(self).lite_default,
    {
        if self.page.is_some() && self.generation == generation {
            return PageStep::Reuse;
        }
        let lost = self.page.is_some();
        self.context_id = None;
        if lost {
            self.page = None;
            self.last_url = None;
            self.restore_pending = true;
            if !navigating {
                return PageStep::Lost(
                    "the browser was restarted (idle reap or crash) and this session's page state was lost — call browser_navigate to start again".to_owned(),
                );
            }
        }
        PageStep::Create { lost }
    }

    /// Records a page that was created for this session. Returns the cookies to replay onto
    /// it, when the session lost an earlier page.
    pub fn page_created(&mut self, page: P, context_id: Option<C>, generation: u64) -> (res: Option<
        Vec<CookieParam>,
    >)
        ensures
            *final(self) == old(self).created(page, context_id, generation),
            final(self).page == Some(page),
            final(self).context_id == context_id,
            final(self).generation == generation,
            !final(self).dialog_armed,
            !final(self).restore_pending,
            final(self).last_url == old(self).last_url,
            final(self).dialog == old(self).dialog,
            final(self).pending_localstorage == old(self).pending_localstorage,
            final(self).last_snapshot == old(self).last_snapshot,
            final(self).lite_default == old(self).lite_default,
            final(self).saved_cookies == old(self).saved_cookies,
            match res {
                Some(ps) => old(self).restore_pending && old(self).saved_cookies@.len() > 0
                    && cookie_views(ps@) == cookie_params(views(old(self).saved_cookies@)),
                None => !old(self).restore_pending || old(self).saved_cookies@.len() == 0,
            },
    {
        let replay = if self.restore_pending {
            set_cookies(&self.saved_cookies)
        } else {
            None
        };
        self.page = Some(page);
        self.context_id = context_id;
        self.generation = generation;
        self.dialog_armed = false;
        self.restore_pending = false;
        replay
    }

    // -- navigation --------------------------------------------------------------------
    /// Whether a navigation leaves heavy resources out. An explicit choice becomes the
    /// session's setting.
    pub fn navigate_with(&mut self, lite: Option<bool>) -> (res: bool)
        ensures
            res == match lite {
                Some(l) => l,
                None => old(self).lite_default,
            },
            *final(self) == (SessionState { lite_default: res, ..*old(self) }),
    {
        if let Some(l) = lite {
            self.lite_default = l;
        }
        self.lite_default
    }

    /// Whether an operation that opens a URL leaves heavy resources out. Only an explicit
    /// choice changes the session's setting.
    pub fn lite_for(&self, purpose: Purpose) -> (res: bool)
        ensures
            res == match purpose {
                Purpose::Navigate => self.lite_default,
                Purpose::Text => true,
                Purpose::Visual => false,
            },
    {
        match purpose {
            Purpose::Navigate => self.lite_default,
            Purpose::Text => true,
            Purpose::Visual => false,
        }
    }

    /// The entries that a page on `origin` is due.
    pub open spec fn due_entries(self, origin: Option<Seq<char>>) -> Option<
        Seq<(Seq<char>, Seq<char>)>,
    > {
        match self.pending_localstorage {
            Some(p) => if origin == Some(p.0@) {
                Some(entry_views(p.1@))
            } else {
                None
            },
            None => None,
        }
    }

    /// Records a navigation that succeeded: where the page is now, and its cookies, which
    /// are kept for a browser that is lost later. Returns the restored localStorage entries
    /// that were waiting for this origin; they are handed out once.
    pub fn goto(
        &mut self,
        url: &str,
        page_url: Option<String>,
        cookies: Option<Vec<Json>>,
        origin: Option<&str>,
    ) -> (res: Option<Vec<(String, String)>>)
        ensures
            opt_text(final(self).last_url) == Some(
                match page_url {
                    Some(u) => u@,
                    None => url@,
                },
            ),
            views(final(self).saved_cookies@) == match cookies {
                Some(cs) => views(cs@),
                None => views(old(self).saved_cookies@),
            },
            match res {
                Some(es) => old(self).due_entries(opt_str(origin)) == Some(entry_views(es@))
                    && final(self).pending_localstorage is None,
                None => old(self).due_entries(opt_str(origin)) is None && final(
                    self).pending_localstorage == old(self).pending_localstorage,
            },
            res is Some <==> (old(self).pending_localstorage is Some && opt_str(origin) == Some(
                old(self).pending_localstorage.unwrap().0@,
            )),
            res matches Some(es) ==> es@ == old(self).pending_localstorage.unwrap().1@,
            *final(self) == (SessionState {
                last_url: final(self).last_url,
                saved_cookies: final(self).saved_cookies,
                pending_localstorage: final(self).pending_localstorage,
                ..*old(self)
            }),
    {
        self.last_url = match page_url {
            Some(u) => Some(u),
            None => Some(url.to_owned()),
        };
        if let Some(cs) = cookies {
            self.saved_cookies = cs;
        }
        let due = match (&self.pending_localstorage, origin) {
            (Some(p), Some(o)) => same(p.0.as_str(), o),
            _ => false,
        };
        if due {
            match self.pending_localstorage.take() {
                Some(p) => Some(p.1),
                None => None,
            }
        } else {
            None
        }
    }

    /// Records a step back in the history.
    pub fn navigate_back(&mut self, url: &str)
        ensures
            opt_text(final(self).last_url) == Some(url@),
            *final(self) == (SessionState { last_url: final(self).last_url, ..*old(self) }),
    {
        self.last_url = Some(url.to_owned());
    }

    /// Keeps restored localStorage entries until a navigation reaches their origin.
    pub fn defer_localstorage(&mut self, origin: String, entries: Vec<(String, String)>)
        ensures
            *final(self) == (SessionState {
                pending_localstorage: Some((origin, entries)),
                ..*old(self)
            }),
    {
        self.pending_localstorage = Some((origin, entries));
    }

    // -- dialogs --------------------------------------------------------------------
    /// Sets how dialogs are answered from now on. Returns whether the page still has to be
    /// wired so that they are.
    pub fn handle_dialog(&mut self, accept: bool, prompt_text: Option<String>) -> (res: bool)
        ensures
            res == !old(self).dialog_armed,
            *final(self) == (SessionState {
                dialog: Some(DialogBehavior { accept, prompt_text }),
                ..*old(self)
            }),
    {
        self.dialog = Some(DialogBehavior { accept, prompt_text });
        !self.dialog_armed
    }

    /// Records that the page's dialogs are wired.
    pub fn dialog_wired(&mut self)
        ensures
            *final(self) == (SessionState { dialog_armed: true, ..*old(self) }),
    {
        self.dialog_armed = true;
    }

    // -- the end --------------------------------------------------------------------
    /// Gives up the page and the context, which the caller closes.
    pub fn close(&mut self) -> (res: (Option<P>, Option<C>))
        ensures
            res.0 == old(self).page,
            res.1 == old(self).context_id,
            final(self).page is None,
            final(self).context_id is None,
            final(self).last_url is None,
            final(self).saved_cookies@.len() == 0,
            !final(self).restore_pending,
            *final(self) == (SessionState {
                page: None,
                context_id: None,
                last_url: None,
                saved_cookies: final(self).saved_cookies,
                restore_pending: false,
                ..*old(self)
            }),
    {
        self.last_url = None;
        self.saved_cookies = Vec::new();
        self.restore_pending = false;
        (self.page.take(), self.context_id.take())
    }
}

/// The error of a navigation that the browser refused.
pub fn navigation_error(url: &str) -> (res: String)
    ensures
        res@ == "navigation to "@ + url@ + " failed"@,
{
    let mut e = "navigation to ".to_owned();
    e.append(url);
    e.append(" failed");
    e
}

// -- laws ------------------------------------------------------------------------------
/// A page, once created, serves every operation for as long as its browser runs.
pub proof fn law_created_page_is_reused<P, C>(
    s: SessionState<P, C>,
    page: P,
    context_id: Option<C>,
    generation: u64,
    navigating: bool,
)
    ensures
        ({
            let t = s.created(page, context_id, generation);
            t.page_answer(generation, navigating) is Reuse && t.ensured(generation) == t
        }),
{
}

/// When the browser was restarted, an operation that does not navigate is told so, exactly
/// once, and navigating recovers the session, before or after that.
pub proof fn law_lost_session_recovers_by_navigating<P, C>(
    s: SessionState<P, C>,
    generation: u64,
)
    requires
        s.page is Some,
        s.generation != generation,
    ensures
        s.page_answer(generation, false) is Lost,
        s.page_answer(generation, true) == (PageAnswer::Create { lost: true }),
        s.ensured(generation).page_answer(generation, true) == (PageAnswer::Create { lost: false }),
        s.ensured(generation).page_answer(generation, false) == (PageAnswer::Create { lost: false }),
{
}

/// An authenticated session survives a restart of the browser: the cookies of its last
/// navigation are replayed onto the page created next, whether or not an operation failed in
/// between.
pub proof fn law_cookies_survive_restart<P, C>(s: SessionState<P, C>, generation: u64)
    requires
        s.page is Some,
        s.generation != generation,
    ensures
        ({
            let once = s.ensured(generation);
            let twice = once.ensured(generation);
            &&& once.restore_pending && once.saved_cookies == s.saved_cookies
            &&& twice.restore_pending && twice.saved_cookies == s.saved_cookies
        }),
{
}

/// Cookies are replayed at most once per restart.
pub proof fn law_cookies_replayed_once<P, C>(
    s: SessionState<P, C>,
    page: P,
    context_id: Option<C>,
    generation: u64,
)
    ensures
        !s.created(page, context_id, generation).ensured(generation).restore_pending,
{
}

/// Restored entries reach their origin whenever a navigation gets there: they wait through every
/// other navigation and are due on the first one to their origin.
pub proof fn law_restored_entries_reach_their_origin<P, C>(
    s: SessionState<P, C>,
    origin: String,
    entries: Vec<(String, String)>,
    visited: Option<Seq<char>>,
)
    ensures
        ({
            let t = SessionState { pending_localstorage: Some((origin, entries)), ..s };
            t.due_entries(visited) == if visited == Some(origin@) {
                Some(entry_views(entries@))
            } else {
                None
            }
        }),
{
}

/// What one session saved, another restores: every cookie that has a name is set at once, and
/// the localStorage entries are written at once where the page is on their origin, else on the
/// first navigation that gets there. `plan` is what reading the saved state gives.
pub proof fn law_saved_state_reaches_another_session<P, C>(
    s: SessionState<P, C>,
    plan: RestorePlan,
    origin: Seq<char>,
    cookies: Seq<JsonView>,
    entries: Seq<(Seq<char>, Seq<char>)>,
    page_origin: Option<Seq<char>>,
)
    requires
        restores(plan, origin, reread_each(cookies), entries),
        origin.len() > 0,
    ensures
        forall|i: int|
            0 <= i < cookies.len() && (#[trigger] cookies[i]).str_at("name"@) is Some ==> {
                &&& plan.cookies matches Some(ps)
                &&& exists|j: int|
                    0 <= j < ps@.len() && sets_again((#[trigger] ps@[j])@, cookies[i])
            },
        entry_views(plan.entries@) == entries,
        entries.len() > 0 ==> plan.next_step(page_origin) == if page_origin == Some(origin) {
            StorageStep::ApplyNow
        } else {
            StorageStep::Defer
        },
        ({
            let t = SessionState {
                pending_localstorage: Some((plan.origin, plan.entries)),
                ..s
            };
            forall|visited: Option<Seq<char>>| #[trigger]
                t.due_entries(visited) == if visited == Some(origin) {
                    Some(entries)
                } else {
                    None
                }
        }),
{
    assert forall|i: int|
        0 <= i < cookies.len() && (#[trigger] cookies[i]).str_at("name"@) is Some implies {
        &&& plan.cookies matches Some(ps)
        &&& exists|j: int| 0 <= j < ps@.len() && sets_again((#[trigger] ps@[j])@, cookies[i])
    } by {
        let ps = plan.cookies.unwrap();
        let params = cookie_params(reread_each(cookies));
        law_every_saved_cookie_is_set(cookies, i);
        let j = choose|j: int|
            0 <= j < params.len() && sets_again(#[trigger] params[j], cookies[i]);
        assert(cookie_views(ps@)[j] == ps@[j]@);
    }
    assert(entry_views(plan.entries@).len() == plan.entries@.len());
}

} // verus!
