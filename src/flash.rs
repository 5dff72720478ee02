use vstd::prelude::*;

verus! {

/// How long, in seconds, a flash message survives the redirect that carries it.
pub const MAX_ELAPSED_SECS: u64 = 60;

/// A one-shot message (an error, say) handed from one request to the next through a
/// cookie, so that it can be shown after a redirect.
pub struct Message {
    /// When the message was made, in seconds since 1970-01-01 (UTC).
    pub time: u64,
    pub text: String,
    /// The message has been shown: its cookie is to be invalidated.
    pub delete: bool,
    /// The message is new in this request: a cookie is to be set for it.
    pub create: bool,
}

impl Message {
    /// A new message, made at `time`.
    pub fn new(text: String, time: u64) -> (r: Message)
        ensures
            r.text@ == text@,
            r.time == time,
            !r.delete,
            r.create,
    {
        Message { time, text, delete: false, create: true }
    }
}

/// What a response does with the flash cookie.
#[derive(Clone, Copy, Debug, PartialEq, Eq, Structural)]
pub enum CookieAction {
    /// Leave the cookie alone.
    Keep,
    /// Set the cookie to hold the new message.
    Create,
    /// Invalidate the cookie of a message that has been shown.
    Invalidate,
}

/// Request middleware that carries flash messages over redirects.
pub struct FlashService {}

impl FlashService {
    pub fn new() -> (r: FlashService) {
        FlashService {}
    }

    /// A message read back from its cookie, kept only while fresh: `elapsed_secs` is
    /// the time since it was made, `None` when that time lies in the future.
    pub fn fresh(&self, message: Message, elapsed_secs: Option<u64>) -> (r: Option<Message>)
        ensures
            r is Some <==> (elapsed_secs matches Some(e) && e <= MAX_ELAPSED_SECS),
            r matches Some(m) ==> m == message,
    {
        match elapsed_secs {
            Some(e) => {
                if e > MAX_ELAPSED_SECS {
                    None
                } else {
                    Some(message)
                }
            },
            None => None,
        }
    }

    /// What the response does with the cookie, given the request's message: a shown
    /// message's cookie is invalidated, a new message gets a cookie.
    pub fn cookie_action(&self, message: &Option<Message>) -> (r: CookieAction)
        ensures
            r == match message {
                Some(m) => if m.delete {
                    CookieAction::Invalidate
                } else if m.create {
                    CookieAction::Create
                } else {
                    CookieAction::Keep
                },
                None => CookieAction::Keep,
            },
    {
        match message {
            Some(m) => {
                if m.delete {
                    CookieAction::Invalidate
                } else if m.create {
                    CookieAction::Create
                } else {
                    CookieAction::Keep
                }
            },
            None => CookieAction::Keep,
        }
    }
}

/// Setting and taking the flash message of a request.
pub trait RequestFlash {
    /// The request's message, if any: its text, and whether it has been shown.
    spec fn flash_view(&self) -> Option<(Seq<char>, bool)>;

    /// Sets a new message, made at `time`.
    fn set_flash_message(&mut self, text: String, time: u64)
        ensures
            final(self).flash_view() == Some((text@, false)),
    ;

    /// The message's text, the first time it is asked for; `None` after that.
    fn get_flash_message(&mut self) -> (r: Option<String>)
        ensures
            match old(self).flash_view() {
                Some((t, false)) => {
                    &&& r matches Some(s) && s@ == t
                    &&& final(self).flash_view() == Some((t, true))
                },
                _ => r is None && final(self).flash_view() == old(self).flash_view(),
            },
    ;
}

/// The flash message slot of one request.
pub struct FlashSlot {
    pub message: Option<Message>,
}

impl RequestFlash for FlashSlot {
    open spec fn flash_view(&self) -> Option<(Seq<char>, bool)> {
        match self.message {
            Some(m) => Some((m.text@, m.delete)),
            None => None,
        }
    }

    fn set_flash_message(&mut self, text: String, time: u64) {
        self.message = Some(Message::new(text, time));
    }

    fn get_flash_message(&mut self) -> (r: Option<String>) {
        match &mut self.message {
            Some(m) => {
                if m.delete {
                    None
                } else {
                    m.delete = true;
                    Some(m.text.clone())
                }
            },
            None => None,
        }
    }
}

} // verus!
