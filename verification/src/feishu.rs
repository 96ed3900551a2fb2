//! Messages for a Feishu bot: the post a report becomes, the JSON body the
//! webhook takes, and the address it is sent to.
use vstd::prelude::*;
use crate::report::line_views;
use crate::text::{chars_of, extend_str, string_of};

verus! {

/// The webhook address a bot token is appended to.
pub fn default_webhook_base() -> (r: String)
    ensures
        r@ == "https://open.feishu.cn/open-apis/bot/v2/hook"@,
{
    String::from_str("https://open.feishu.cn/open-apis/bot/v2/hook")
}

/// A rich-text post: a title and its lines, in order.
#[derive(Debug)]
pub struct FeishuPostMessage {
    title: String,
    lines: Vec<String>,
}

impl FeishuPostMessage {
    pub closed spec fn title_text(&self) -> Seq<char> {
        self.title@
    }

    pub closed spec fn line_texts(&self) -> Seq<Seq<char>> {
        line_views(self.lines@)
    }

    /// A post with the given title and lines.
    pub fn new(title: String, lines: Vec<String>) -> (r: Self)
        ensures
            r.title_text() == title@,
            r.line_texts() == line_views(lines@),
    {
        FeishuPostMessage { title, lines }
    }

    pub fn title(&self) -> (r: &str)
        ensures
            r@ == self.title_text(),
    {
        self.title.as_str()
    }

    /// How many lines the post has.
    pub fn line_count(&self) -> (r: usize)
        ensures
            r == self.line_texts().len(),
    {
        self.lines.len()
    }
}

/// One text element of a post line.
#[derive(Debug)]
pub struct FeishuPostTag {
    pub tag: &'static str,
    pub text: String,
}

/// The Chinese-locale post: title and lines of elements.
#[derive(Debug)]
pub struct FeishuPostLocale {
    pub title: String,
    pub content: Vec<Vec<FeishuPostTag>>,
}

#[derive(Debug)]
pub struct FeishuPostBody {
    pub zh_cn: FeishuPostLocale,
}

#[derive(Debug)]
pub struct FeishuPostWebhookContent {
    pub post: FeishuPostBody,
}

/// The JSON body the bot webhook takes for a post.
#[derive(Debug)]
pub struct FeishuPostWebhookMessage {
    pub msg_type: &'static str,
    pub content: FeishuPostWebhookContent,
}

/// Each line becomes one line holding a single `text` element.
pub open spec fn line_elements(content: Seq<Vec<FeishuPostTag>>, lines: Seq<Seq<char>>) -> bool {
    &&& content.len() == lines.len()
    &&& forall|i: int|
        0 <= i < lines.len() ==> {
            &&& (#[trigger] content[i])@.len() == 1
            &&& content[i]@[0].tag@ == "text"@
            &&& content[i]@[0].text@ == lines[i]
        }
}

impl FeishuPostWebhookMessage {
    /// The webhook body of a post: type `post`, the post's title, and one
    /// `text` element per line.
    pub fn new(post: FeishuPostMessage) -> (r: Self)
        ensures
            r.msg_type@ == "post"@,
            r.content.post.zh_cn.title@ == post.title_text(),
            line_elements(r.content.post.zh_cn.content@, post.line_texts()),
    {
        let FeishuPostMessage { title, lines } = post;
        let mut content: Vec<Vec<FeishuPostTag>> = Vec::new();
        let mut i: usize = 0;
        while i < lines.len()
            invariant
                i <= lines.len(),
                line_elements(content@, line_views(lines@.subrange(0, i as int))),
            decreases lines.len() - i,
        {
            let text = lines[i].clone();
            let tag = FeishuPostTag { tag: "text", text };
            proof {
                reveal_strlit("text");
            }
            let mut line: Vec<FeishuPostTag> = Vec::new();
            line.push(tag);
            let ghost before = content@;
            content.push(line);
            proof {
                assert(line_views(lines@.subrange(0, i + 1)) =~= line_views(
                    lines@.subrange(0, i as int),
                ).push(lines@[i as int]@));
                assert forall|k: int| 0 <= k < i + 1 implies {
                    &&& (#[trigger] content@[k])@.len() == 1
                    &&& content@[k]@[0].tag@ == "text"@
                    &&& content@[k]@[0].text@ == line_views(lines@.subrange(0, i + 1))[k]
                } by {
                    if k < i {
                        assert(content@[k] == before[k]);
                    }
                }
            }
            i = i + 1;
        }
        assert(lines@.subrange(0, lines.len() as int) =~= lines@);
        FeishuPostWebhookMessage {
            msg_type: "post",
            content: FeishuPostWebhookContent {
                post: FeishuPostBody { zh_cn: FeishuPostLocale { title, content } },
            },
        }
    }
}

/// The text with every trailing `/` removed (`str::trim_end_matches('/')`).
pub open spec fn without_trailing_slashes(s: Seq<char>) -> Seq<char>
    decreases s.len(),
{
    if s.len() > 0 && s.last() == '/' {
        without_trailing_slashes(s.drop_last())
    } else {
        s
    }
}

/// Where posts for a bot go: its token, if one is configured, and the
/// webhook base address.
#[derive(Debug, Clone)]
pub struct FeishuNotifier {
    token: Option<String>,
    webhook_base: String,
}

impl FeishuNotifier {
    pub closed spec fn token_text(&self) -> Option<Seq<char>> {
        match self.token {
            Some(t) => Some(t@),
            None => None,
        }
    }

    pub closed spec fn base_text(&self) -> Seq<char> {
        self.webhook_base@
    }

    /// A notifier for the public Feishu webhook.
    pub fn new(token: Option<String>) -> (r: Self)
        ensures
            r.token_text() == (match token {
                Some(t) => Some(t@),
                None => None::<Seq<char>>,
            }),
            r.base_text() == "https://open.feishu.cn/open-apis/bot/v2/hook"@,
    {
        Self::with_webhook_base(token, default_webhook_base())
    }

    /// A notifier posting to another webhook base.
    pub fn with_webhook_base(token: Option<String>, webhook_base: String) -> (r: Self)
        ensures
            r.token_text() == (match token {
                Some(t) => Some(t@),
                None => None::<Seq<char>>,
            }),
            r.base_text() == webhook_base@,
    {
        FeishuNotifier { token, webhook_base }
    }

    /// Posts are sent only when a token is configured.
    pub fn is_enabled(&self) -> (r: bool)
        ensures
            r == self.token_text() is Some,
    {
        self.token.is_some()
    }

    /// The address a post is sent to: the base without trailing slashes, a
    /// slash and the token; `None` when no token is configured, in which
    /// case posting is skipped.
    pub fn webhook_url(&self) -> (r: Option<String>)
        ensures
            match self.token_text() {
                Some(t) => r is Some && r->0@ == without_trailing_slashes(self.base_text()) + "/"@ + t,
                None => r is None,
            },
    {
        match &self.token {
            None => None,
            Some(token) => {
                let base = chars_of(self.webhook_base.as_str());
                let mut n: usize = base.len();
                assert(base@ =~= base@.subrange(0, base.len() as int));
                while n > 0 && base[n - 1] == '/'
                    invariant
                        n <= base.len(),
                        base@ == self.webhook_base@,
                        without_trailing_slashes(base@) == without_trailing_slashes(
                            base@.subrange(0, n as int),
                        ),
                    decreases n,
                {
                    assert(base@.subrange(0, n - 1) =~= base@.subrange(0, n as int).drop_last());
                    n = n - 1;
                }
                assert(without_trailing_slashes(base@) == base@.subrange(0, n as int));
                let mut out: Vec<char> = Vec::new();
                let mut i: usize = 0;
                while i < n
                    invariant
                        i <= n <= base.len(),
                        out@ == base@.subrange(0, i as int),
                    decreases n - i,
                {
                    out.push(base[i]);
                    i = i + 1;
                }
                extend_str(&mut out, "/");
                let tv = chars_of(token.as_str());
                crate::text::extend_chars(&mut out, &tv);
                Some(string_of(&out))
            },
        }
    }
}

} // verus!
