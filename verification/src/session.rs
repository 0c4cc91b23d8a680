//! Conversation messages.

use vstd::prelude::*;

verus! {

/// Who a message is from.
#[derive(Clone, Copy, Debug, PartialEq, Eq, Structural)]
pub enum Role {
    /// The system prompt.
    System,
    /// The user.
    User,
    /// The assistant.
    Assistant,
    /// The result of a tool call.
    Tool,
}

/// Where the data of an image is.
#[derive(Clone, Debug)]
pub enum ImageSource {
    /// Inline, in base64.
    Base64 { data: String },
}

/// A part of a message.
#[derive(Clone, Debug)]
pub enum ContentPart {
    /// Text.
    Text { text: String },
    /// An image.
    Image { source: ImageSource, media_type: String },
}

/// A call of a tool, as the assistant asks for it.
#[derive(Clone, Debug)]
pub struct ToolCall {
    /// Identifies the call.
    pub id: String,
    /// The tool.
    pub name: String,
    /// Its arguments, as JSON text.
    pub arguments: String,
}

/// A message of a conversation.
#[derive(Clone, Debug)]
pub struct Message {
    /// Who it is from.
    pub role: Role,
    /// Its text.
    pub content: String,
    /// Its parts, where it is made of parts.
    pub content_parts: Vec<ContentPart>,
    /// The tool calls that it asks for.
    pub tool_calls: Option<Vec<ToolCall>>,
    /// The call that it is the result of.
    pub tool_call_id: Option<String>,
}

/// The contents of a [`ContentPart`].
pub enum PartView {
    /// Text.
    Text(Seq<char>),
    /// The data and the media type of an image.
    Image(Seq<char>, Seq<char>),
}

/// The contents of a [`ToolCall`].
pub struct CallView {
    /// See [`ToolCall::id`].
    pub id: Seq<char>,
    /// See [`ToolCall::name`].
    pub name: Seq<char>,
    /// See [`ToolCall::arguments`].
    pub arguments: Seq<char>,
}

/// The contents of a [`Message`].
pub struct MessageView {
    /// See [`Message::role`].
    pub role: Role,
    /// See [`Message::content`].
    pub content: Seq<char>,
    /// See [`Message::content_parts`].
    pub parts: Seq<PartView>,
    /// See [`Message::tool_calls`].
    pub calls: Option<Seq<CallView>>,
    /// See [`Message::tool_call_id`].
    pub call_id: Option<Seq<char>>,
}

impl View for ContentPart {
    type V = PartView;

    open spec fn view(&self) -> PartView {
        match *self {
            ContentPart::Text { text } => PartView::Text(text@),
            ContentPart::Image { source: ImageSource::Base64 { data }, media_type } => {
                PartView::Image(data@, media_type@)
            },
        }
    }
}

impl View for ToolCall {
    type V = CallView;

    open spec fn view(&self) -> CallView {
        CallView { id: self.id@, name: self.name@, arguments: self.arguments@ }
    }
}

impl View for Message {
    type V = MessageView;

    open spec fn view(&self) -> MessageView {
        MessageView {
            role: self.role,
            content: self.content@,
            parts: self.content_parts@.map_values(|p: ContentPart| p@),
            calls: match self.tool_calls {
                None => None,
                Some(calls) => Some(calls@.map_values(|c: ToolCall| c@)),
            },
            call_id: match self.tool_call_id {
                None => None,
                Some(id) => Some(id@),
            },
        }
    }
}

/// The contents of each message.
pub open spec fn message_views(messages: Seq<Message>) -> Seq<MessageView> {
    messages.map_values(|m: Message| m@)
}

/// A message that is one text.
pub open spec fn text_message(
    role: Role,
    content: Seq<char>,
    call_id: Option<Seq<char>>,
) -> MessageView {
    MessageView { role, content, parts: seq![PartView::Text(content)], calls: None, call_id }
}

/// The parts of a message that is one text.
pub fn text_parts(text: &str) -> (r: Vec<ContentPart>)
    ensures
        r@.map_values(|p: ContentPart| p@) == seq![PartView::Text(text@)],
{
    let r = vec![ContentPart::Text { text: text.to_owned() }];
    assert(r@.map_values(|p: ContentPart| p@) =~= seq![PartView::Text(text@)]);
    r
}

impl ToolCall {
    /// A call of the tool `name`.
    pub fn new(id: &str, name: &str, arguments: &str) -> (r: ToolCall)
        ensures
            r@ == (CallView { id: id@, name: name@, arguments: arguments@ }),
    {
        ToolCall { id: id.to_owned(), name: name.to_owned(), arguments: arguments.to_owned() }
    }
}

impl Message {
    /// A message of the user.
    pub fn user(content: &str) -> (r: Message)
        ensures
            r@ == text_message(Role::User, content@, None),
    {
        Message {
            role: Role::User,
            content: content.to_owned(),
            content_parts: text_parts(content),
            tool_calls: None,
            tool_call_id: None,
        }
    }

    /// A message of the assistant.
    pub fn assistant(content: &str) -> (r: Message)
        ensures
            r@ == text_message(Role::Assistant, content@, None),
    {
        Message {
            role: Role::Assistant,
            content: content.to_owned(),
            content_parts: text_parts(content),
            tool_calls: None,
            tool_call_id: None,
        }
    }

    /// The result of the tool call `call_id`.
    pub fn tool_result(call_id: &str, content: &str) -> (r: Message)
        ensures
            r@ == text_message(Role::Tool, content@, Some(call_id@)),
    {
        Message {
            role: Role::Tool,
            content: content.to_owned(),
            content_parts: text_parts(content),
            tool_calls: None,
            tool_call_id: Some(call_id.to_owned()),
        }
    }
}

} // verus!
