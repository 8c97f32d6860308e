//! The conversation transcript: role-tagged messages in insertion order,
//! the active model name, and the streaming flag, together with the
//! request/response shapes of the two upstream providers.

use vstd::prelude::*;
use vstd::string::StringExecFns;

verus! {

/// The role tag of the single persistent instruction message.
pub open spec fn developer_role() -> Seq<char> {
    "developer"@
}

/// One role-tagged message of the conversation.
pub struct Message {
    pub role: String,
    pub content: String,
}

/// Mathematical image of a `Message`: both fields as character sequences.
pub ghost struct MessageView {
    pub role: Seq<char>,
    pub content: Seq<char>,
}

impl View for Message {
    type V = MessageView;

    open spec fn view(&self) -> MessageView {
        MessageView { role: self.role@, content: self.content@ }
    }
}

impl DeepView for Message {
    type V = MessageView;

    open spec fn deep_view(&self) -> MessageView {
        self@
    }
}

impl Clone for Message {
    fn clone(&self) -> (r: Self)
        ensures
            r@ == self@,
    {
        Message { role: self.role.clone(), content: self.content.clone() }
    }
}

impl Message {
    pub fn new(role: &str, content: &str) -> (m: Message)
        ensures
            m@.role == role@,
            m@.content == content@,
    {
        Message { role: String::from_str(role), content: String::from_str(content) }
    }
}

/// The transcript: active model, messages in insertion order, streaming flag.
pub struct ConversationContext {
    pub model: String,
    pub input: Vec<Message>,
    pub stream: bool,
}

/// Mathematical image of a transcript.
pub ghost struct ConversationView {
    pub model: Seq<char>,
    pub input: Seq<MessageView>,
    pub stream: bool,
}

impl View for ConversationContext {
    type V = ConversationView;

    open spec fn view(&self) -> ConversationView {
        ConversationView {
            model: self.model@,
            input: self.input.deep_view(),
            stream: self.stream,
        }
    }
}

impl ConversationContext {
    /// An empty transcript with the given model and streaming flag.
    pub fn new(model: &str, stream: bool) -> (c: ConversationContext)
        ensures
            c@.model == model@,
            c@.input == Seq::<MessageView>::empty(),
            c@.stream == stream,
    {
        let c = ConversationContext {
            model: String::from_str(model),
            input: Vec::new(),
            stream,
        };
        proof {
            assert(c@.input =~= Seq::<MessageView>::empty());
        }
        c
    }

    /// Toggles whether the next request asks for incremental delivery.
    pub fn set_stream(&mut self, s: bool)
        ensures
            final(self)@.stream == s,
            final(self)@.model == old(self)@.model,
            final(self)@.input == old(self)@.input,
    {
        self.stream = s;
    }

    /// Appends one message; insertion order is conversation order.
    pub fn push(&mut self, m: Message)
        ensures
            final(self)@.input == old(self)@.input.push(m@),
            final(self)@.model == old(self)@.model,
            final(self)@.stream == old(self)@.stream,
    {
        self.input.push(m);
        proof {
            assert(self@.input =~= old(self)@.input.push(self.input@.last()@));
        }
    }

    /// Removes every message; the caller re-inserts the developer message.
    pub fn clear(&mut self)
        ensures
            final(self)@.input == Seq::<MessageView>::empty(),
            final(self)@.model == old(self)@.model,
            final(self)@.stream == old(self)@.stream,
    {
        self.input.clear();
        proof {
            assert(self@.input =~= Seq::<MessageView>::empty());
        }
    }
}


/// Messages with the developer instruction removed, as the Anthropic body
/// carries them.
pub open spec fn non_developer_messages(ms: Seq<MessageView>) -> Seq<MessageView> {
    ms.filter(|m: MessageView| m.role != developer_role())
}

/// The content of the first developer-tagged message; empty when none is.
pub open spec fn first_developer_content(ms: Seq<MessageView>) -> Seq<char>
    decreases ms.len(),
{
    if ms.len() == 0 {
        Seq::empty()
    } else if ms[0].role == developer_role() {
        ms[0].content
    } else {
        first_developer_content(ms.skip(1))
    }
}

/// The request body of the Anthropic-style endpoint: the developer
/// instruction as a top-level field, every other message in order.
pub struct AnthropicRequest {
    pub system: String,
    pub model: String,
    pub messages: Vec<Message>,
    pub max_tokens: usize,
}

/// Mathematical image of an `AnthropicRequest`.
pub ghost struct AnthropicRequestView {
    pub system: Seq<char>,
    pub model: Seq<char>,
    pub messages: Seq<MessageView>,
    pub max_tokens: int,
}

impl View for AnthropicRequest {
    type V = AnthropicRequestView;

    open spec fn view(&self) -> AnthropicRequestView {
        AnthropicRequestView {
            system: self.system@,
            model: self.model@,
            messages: self.messages.deep_view(),
            max_tokens: self.max_tokens as int,
        }
    }
}

impl AnthropicRequest {
    /// Splits the transcript the way the Anthropic endpoint wants it: the
    /// first developer message's content becomes `system`, the remaining
    /// messages keep their order.
    pub fn from_context(ctx: &ConversationContext, max_tokens: usize) -> (r: AnthropicRequest)
        ensures
            r@.system == first_developer_content(ctx@.input),
            r@.model == ctx@.model,
            r@.max_tokens == max_tokens as int,
            r@.messages == non_developer_messages(ctx@.input),
    {
        let n = ctx.input.len();
        let mut system = String::new();
        let mut found = false;
        let mut i: usize = 0;
        proof {
            assert(ctx@.input.skip(0) =~= ctx@.input);
        }
        while i < n
            invariant
                n == ctx.input.len(),
                i <= n,
                !found ==> system@ == Seq::<char>::empty(),
                !found ==> first_developer_content(ctx@.input) == first_developer_content(
                    ctx@.input.skip(i as int),
                ),
                found ==> system@ == first_developer_content(ctx@.input),
            decreases n - i,
        {
            if !found {
                proof {
                    assert(ctx@.input.skip(i as int)[0] == ctx@.input[i as int]);
                    assert(ctx@.input.skip(i as int).skip(1) =~= ctx@.input.skip(i + 1 as int));
                }
                if is_developer(&ctx.input[i]) {
                    system = ctx.input[i].content.clone();
                    found = true;
                }
            }
            i = i + 1;
        }
        proof {
            if !found {
                assert(ctx@.input.skip(n as int).len() == 0);
            }
        }
        let mut messages: Vec<Message> = Vec::new();
        let mut j: usize = 0;
        while j < n
            invariant
                n == ctx.input.len(),
                j <= n,
                messages.deep_view() == non_developer_messages(ctx@.input.take(j as int)),
            decreases n - j,
        {
            proof {
                reveal(Seq::filter);
                assert(ctx@.input.take(j + 1 as int).drop_last() =~= ctx@.input.take(j as int));
                assert(ctx@.input.take(j + 1 as int).last() == ctx@.input[j as int]);
            }
            if !is_developer(&ctx.input[j]) {
                let ghost before = messages.deep_view();
                messages.push(ctx.input[j].clone());
                proof {
                    assert(messages.deep_view() =~= before.push(ctx@.input[j as int]));
                }
            }
            j = j + 1;
        }
        proof {
            assert(ctx@.input.take(n as int) =~= ctx@.input);
        }
        AnthropicRequest { system, model: ctx.model.clone(), messages, max_tokens }
    }
}

/// Whether a message carries the developer role.
pub fn is_developer(m: &Message) -> (r: bool)
    ensures
        r == (m@.role == developer_role()),
{
    let dev = String::from_str("developer");
    m.role == dev
}

/// The Anthropic body splits the transcript cleanly: when the transcript
/// holds exactly one developer message, `system` is that message's content
/// and the body's messages are all the others, in order, none of them
/// developer-tagged.
pub proof fn lemma_anthropic_split(ms: Seq<MessageView>, d: int)
    requires
        0 <= d < ms.len(),
        ms[d].role == developer_role(),
        forall|i: int| 0 <= i < ms.len() && i != d ==> (#[trigger] ms[i]).role != developer_role(),
    ensures
        first_developer_content(ms) == ms[d].content,
        non_developer_messages(ms).len() == ms.len() - 1,
        forall|j: int| 0 <= j < non_developer_messages(ms).len() ==> (#[trigger]
        non_developer_messages(ms)[j]).role != developer_role(),
    decreases ms.len(),
{
    reveal(Seq::filter);
    broadcast use vstd::seq_lib::group_filter_ensures;

    if ms.len() == 0 {
    } else {
        let last = ms.last();
        let front = ms.drop_last();
        if d == ms.len() - 1 {
            // the developer message is the last one: the front is all
            // non-developer, so filtering keeps it whole
            lemma_filter_all_kept(front);
            if ms.len() == 1 {
                assert(first_developer_content(ms) == ms[0].content);
            } else {
                assert(ms[0].role != developer_role());
                assert(ms.skip(1)[d - 1] == ms[d]);
                assert(forall|i: int|
                    0 <= i < ms.skip(1).len() && i != d - 1 ==> (#[trigger] ms.skip(1)[i]).role
                        != developer_role());
                lemma_anthropic_split(ms.skip(1), d - 1);
                assert(first_developer_content(ms) == ms[d].content);
            }
        } else {
            assert(last.role != developer_role());
            assert(front[d] == ms[d]);
            assert(forall|i: int|
                0 <= i < front.len() && i != d ==> (#[trigger] front[i]).role != developer_role());
            lemma_anthropic_split(front, d);
            assert(non_developer_messages(ms) == non_developer_messages(front).push(last));
            if ms.len() == 1 {
            } else {
                if d == 0 {
                    assert(first_developer_content(ms) == ms[0].content);
                } else {
                    assert(ms[0].role != developer_role());
                    assert(ms.skip(1)[d - 1] == ms[d]);
                    assert(forall|i: int|
                        0 <= i < ms.skip(1).len() && i != d - 1 ==> (#[trigger] ms.skip(
                            1,
                        )[i]).role != developer_role());
                    lemma_anthropic_split(ms.skip(1), d - 1);
                }
            }
        }
    }
}

/// Filtering a sequence of messages that are all non-developer keeps it
/// unchanged.
proof fn lemma_filter_all_kept(ms: Seq<MessageView>)
    requires
        forall|i: int| 0 <= i < ms.len() ==> (#[trigger] ms[i]).role != developer_role(),
    ensures
        non_developer_messages(ms) == ms,
    decreases ms.len(),
{
    reveal(Seq::filter);
    if ms.len() == 0 {
        assert(non_developer_messages(ms) =~= ms);
    } else {
        lemma_filter_all_kept(ms.drop_last());
        assert(non_developer_messages(ms) =~= ms);
    }
}


/// One content block of an Anthropic-style reply.
pub struct AnthropicMessageContent {
    pub text: String,
}

/// An Anthropic-style reply: content blocks in order; the first block's
/// text is the reply.
pub struct AnthropicMessage {
    pub content: Vec<AnthropicMessageContent>,
}

impl DeepView for AnthropicMessageContent {
    type V = Seq<char>;

    open spec fn deep_view(&self) -> Seq<char> {
        self.text@
    }
}

impl AnthropicMessage {
    /// The reply text: the first content block's text, absent when the
    /// reply carries no block at all.
    pub fn first_text(&self) -> (r: Option<String>)
        ensures
            match r {
                Some(t) => self.content.deep_view().len() > 0 && t@ == self.content.deep_view()[0],
                None => self.content.deep_view().len() == 0,
            },
    {
        if self.content.len() > 0 {
            Some(self.content[0].text.clone())
        } else {
            None
        }
    }
}

/// One content block of an OpenAI "responses" output item.
pub struct OutputContent {
    pub type_field: String,
    pub text: String,
}

/// Mathematical image of an output content block.
pub ghost struct OutputContentView {
    pub type_field: Seq<char>,
    pub text: Seq<char>,
}

impl DeepView for OutputContent {
    type V = OutputContentView;

    open spec fn deep_view(&self) -> OutputContentView {
        OutputContentView { type_field: self.type_field@, text: self.text@ }
    }
}

/// One output item of an OpenAI "responses" reply.
pub struct Output {
    pub type_field: String,
    pub id: String,
    pub status: Option<String>,
    pub role: Option<String>,
    pub content: Option<Vec<OutputContent>>,
}

/// Mathematical image of an output item.
pub ghost struct OutputView {
    pub type_field: Seq<char>,
    pub id: Seq<char>,
    pub status: Option<Seq<char>>,
    pub role: Option<Seq<char>>,
    pub content: Option<Seq<OutputContentView>>,
}

impl DeepView for Output {
    type V = OutputView;

    open spec fn deep_view(&self) -> OutputView {
        OutputView {
            type_field: self.type_field@,
            id: self.id@,
            status: self.status.deep_view(),
            role: self.role.deep_view(),
            content: self.content.deep_view(),
        }
    }
}

/// An OpenAI "responses" reply: output items in order.
pub struct Response {
    pub output: Vec<Output>,
}

impl View for Response {
    type V = Seq<OutputView>;

    open spec fn view(&self) -> Seq<OutputView> {
        self.output.deep_view()
    }
}

/// One choice of an OpenAI "chat" reply.
pub struct Choice {
    pub message: Message,
}

impl DeepView for Choice {
    type V = MessageView;

    open spec fn deep_view(&self) -> MessageView {
        self.message@
    }
}

/// An OpenAI "chat" reply: choices in order; the first choice's message
/// content is the reply.
pub struct ResponseC {
    pub choices: Vec<Choice>,
}

impl ResponseC {
    /// The reply text: the first choice's message content, absent when the
    /// reply holds no choice.
    pub fn first_text(&self) -> (r: Option<String>)
        ensures
            match r {
                Some(t) => self.choices.deep_view().len() > 0 && t@ == self.choices.deep_view()[0].content,
                None => self.choices.deep_view().len() == 0,
            },
    {
        if self.choices.len() > 0 {
            Some(self.choices[0].message.content.clone())
        } else {
            None
        }
    }
}

/// One frame of a streamed reply: an incremental text fragment.
pub struct DeltaData {
    pub delta: String,
}

/// One model listed by the Anthropic models endpoint.
pub struct Model {
    pub id: String,
}

impl DeepView for Model {
    type V = Seq<char>;

    open spec fn deep_view(&self) -> Seq<char> {
        self.id@
    }
}

/// The Anthropic models listing.
pub struct ModelsResponse {
    pub data: Vec<Model>,
}


/// The transcript after `clear()` and re-insertion of the developer
/// message: the same model and flag over exactly one message.
pub open spec fn reseeded(c: ConversationView, dev: MessageView) -> ConversationView {
    ConversationView { model: c.model, input: seq![dev], stream: c.stream }
}

impl ConversationContext {
    /// Empties the transcript and re-inserts the developer message, as the
    /// clear command does.
    pub fn clear_to_developer(&mut self, dev_message: &Message)
        ensures
            final(self)@ == reseeded(old(self)@, dev_message@),
    {
        self.clear();
        self.push(dev_message.clone());
        proof {
            assert(self@.input =~= seq![dev_message@]);
        }
    }

    /// Rewrites the first developer message's content in place, as the
    /// configuration edit does; without one the transcript is unchanged.
    pub fn rewrite_developer(&mut self, content: &str)
        ensures
            final(self)@.model == old(self)@.model,
            final(self)@.stream == old(self)@.stream,
            final(self)@.input == rewritten(old(self)@.input, content@),
    {
        let n = self.input.len();
        let mut i: usize = 0;
        while i < n
            invariant
                n == self.input.len(),
                i <= n,
                self@ == old(self)@,
                forall|k: int| 0 <= k < i ==> (#[trigger] self@.input[k]).role != developer_role(),
            decreases n - i,
        {
            if is_developer(&self.input[i]) {
                let replacement = Message {
                    role: String::from_str("developer"),
                    content: String::from_str(content),
                };
                self.input.set(i, replacement);
                proof {
                    lemma_first_developer(old(self)@.input, i as int);
                    assert(self@.input =~= old(self)@.input.update(
                        i as int,
                        MessageView { role: "developer"@, content: content@ },
                    ));
                }
                return ;
            }
            i = i + 1;
        }
        proof {
            lemma_no_developer(self@.input);
        }
    }
}

/// Index of the first developer message, or the length when none exists.
pub open spec fn first_developer_index(ms: Seq<MessageView>) -> int
    decreases ms.len(),
{
    if ms.len() == 0 {
        0
    } else if ms[0].role == developer_role() {
        0
    } else {
        1 + first_developer_index(ms.skip(1))
    }
}

/// The messages after the configuration edit rewrote the developer
/// message in place.
pub open spec fn rewritten(ms: Seq<MessageView>, content: Seq<char>) -> Seq<MessageView> {
    let d = first_developer_index(ms);
    if d < ms.len() {
        ms.update(d, MessageView { role: developer_role(), content })
    } else {
        ms
    }
}

proof fn lemma_first_developer(ms: Seq<MessageView>, i: int)
    requires
        0 <= i < ms.len(),
        ms[i].role == developer_role(),
        forall|k: int| 0 <= k < i ==> (#[trigger] ms[k]).role != developer_role(),
    ensures
        first_developer_index(ms) == i,
    decreases ms.len(),
{
    if i > 0 {
        assert(forall|k: int|
            0 <= k < i - 1 ==> ms.skip(1)[k] == ms[k + 1]);
        assert(ms.skip(1)[i - 1] == ms[i]);
        lemma_first_developer(ms.skip(1), i - 1);
    }
}

proof fn lemma_no_developer(ms: Seq<MessageView>)
    requires
        forall|k: int| 0 <= k < ms.len() ==> (#[trigger] ms[k]).role != developer_role(),
    ensures
        first_developer_index(ms) == ms.len(),
    decreases ms.len(),
{
    if ms.len() > 0 {
        assert(forall|k: int|
            0 <= k < ms.skip(1).len() ==> ms.skip(1)[k] == ms[k + 1]);
        lemma_no_developer(ms.skip(1));
    }
}

/// The block the debug command prints for one message.
pub open spec fn message_block(m: MessageView) -> Seq<char> {
    m.role + ":\n"@ + m.content + "\n:::\n"@
}

/// What the debug command reports: one block per message, by index.
pub open spec fn debug_listing(ms: Seq<MessageView>) -> Seq<Seq<char>> {
    Seq::new(ms.len(), |i: int| message_block(ms[i]))
}

impl ConversationContext {
    /// The debug listing of the transcript, one block per message.
    pub fn debug_lines(&self) -> (r: Vec<String>)
        ensures
            r.deep_view() == debug_listing(self@.input),
    {
        let mut r: Vec<String> = Vec::new();
        let n = self.input.len();
        let mut i: usize = 0;
        while i < n
            invariant
                n == self.input.len(),
                i <= n,
                r.deep_view() =~= debug_listing(self@.input).take(i as int),
            decreases n - i,
        {
            let m = &self.input[i];
            let mut block = m.role.clone();
            block.append(":\n");
            block.append(m.content.as_str());
            block.append("\n:::\n");
            let ghost before = r.deep_view();
            r.push(block);
            proof {
                assert(r.deep_view() =~= before.push(message_block(self@.input[i as int])));
                assert(r.deep_view() =~= debug_listing(self@.input).take(i + 1 as int));
            }
            i = i + 1;
        }
        proof {
            assert(debug_listing(self@.input).take(n as int) =~= debug_listing(self@.input));
        }
        r
    }
}

/// The order the debug command reports equals insertion order: for any
/// sequence of pushes, block `i` of the listing describes the `i`-th
/// message pushed, and pushing one more message appends exactly one block.
pub proof fn lemma_debug_order(ms: Seq<MessageView>, m: MessageView)
    ensures
        debug_listing(ms).len() == ms.len(),
        forall|i: int| 0 <= i < ms.len() ==> debug_listing(ms)[i] == message_block(ms[i]),
        debug_listing(ms.push(m)) == debug_listing(ms).push(message_block(m)),
{
    assert(debug_listing(ms.push(m)) =~= debug_listing(ms).push(message_block(m)));
}

/// Clearing then re-inserting the developer message always leaves a
/// transcript whose first message carries the developer role, whatever
/// stood in it before.
pub proof fn lemma_clear_then_reseed(c: ConversationView, dev: MessageView)
    requires
        dev.role == developer_role(),
    ensures
        reseeded(c, dev).input.len() == 1,
        reseeded(c, dev).input[0].role == developer_role(),
        reseeded(c, dev).model == c.model,
        reseeded(c, dev).stream == c.stream,
{
}


impl ModelsResponse {
    /// The listed model identifiers, in listing order.
    pub fn ids(&self) -> (r: Vec<String>)
        ensures
            r.deep_view() == self.data.deep_view(),
    {
        let mut r: Vec<String> = Vec::new();
        let n = self.data.len();
        let mut i: usize = 0;
        while i < n
            invariant
                n == self.data.len(),
                i <= n,
                r.deep_view() =~= self.data.deep_view().take(i as int),
            decreases n - i,
        {
            let ghost before = r.deep_view();
            r.push(self.data[i].id.clone());
            proof {
                assert(r.deep_view() =~= before.push(self.data.deep_view()[i as int]));
                assert(r.deep_view() =~= self.data.deep_view().take(i + 1 as int));
            }
            i = i + 1;
        }
        proof {
            assert(self.data.deep_view().take(n as int) =~= self.data.deep_view());
        }
        r
    }
}

} // verus!
