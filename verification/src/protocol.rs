//! The parts of the model protocol that the library decides about.

use vstd::prelude::*;
use vstd::string::*;

verus! {

/// The model of an optional text.
pub open spec fn optional_text(text: Option<String>) -> Option<Seq<char>> {
    match text {
        Some(text) => Some(text@),
        None => None,
    }
}

/// A copy of an optional text.
pub fn copy_optional(text: &Option<String>) -> (r: Option<String>)
    ensures
        r == *text,
        optional_text(r) == optional_text(*text),
{
    match text {
        Some(text) => Some(text.clone()),
        None => None,
    }
}

/// The number of bytes that stand for `tokens` tokens of text: four for each.
pub open spec fn bytes_for_tokens(tokens: usize) -> usize {
    if tokens * 4 > usize::MAX {
        usize::MAX
    } else {
        (tokens * 4) as usize
    }
}

/// The number of bytes that stand for `tokens` tokens of text: four for each.
pub fn approx_bytes_for_tokens(tokens: usize) -> (r: usize)
    ensures
        r == bytes_for_tokens(tokens),
{
    match tokens.checked_mul(4) {
        Some(bytes) => bytes,
        None => usize::MAX,
    }
}

/// How much of a tool output the model may see.
#[derive(Clone, Copy, Debug, PartialEq, Eq, Structural)]
pub enum TruncationPolicy {
    Bytes(usize),
    Tokens(usize),
}

impl TruncationPolicy {
    /// The policy in bytes.
    pub open spec fn budget(self) -> usize {
        match self {
            TruncationPolicy::Bytes(bytes) => bytes,
            TruncationPolicy::Tokens(tokens) => bytes_for_tokens(tokens),
        }
    }

    /// The policy in bytes.
    pub fn byte_budget(&self) -> (r: usize)
        ensures
            r == self.budget(),
    {
        match self {
            TruncationPolicy::Bytes(bytes) => *bytes,
            TruncationPolicy::Tokens(tokens) => approx_bytes_for_tokens(*tokens),
        }
    }
}

/// The resolution at which a model looks at an image.
#[derive(Clone, Copy, Debug, PartialEq, Eq, Structural)]
pub enum ImageDetail {
    Auto,
    Low,
    High,
    Original,
}

/// One item of a tool output that has several.
#[derive(Debug)]
pub enum FunctionCallOutputContentItem {
    InputText { text: String },
    InputImage { image_url: String, detail: Option<ImageDetail> },
    /// `estimated_tokens` is what the audio costs the model.
    InputAudio { audio_url: String, estimated_tokens: usize },
    EncryptedContent { encrypted_content: String },
}

/// The model of a [`FunctionCallOutputContentItem`].
pub enum ItemModel {
    InputText { text: Seq<char> },
    InputImage { image_url: Seq<char>, detail: Option<ImageDetail> },
    InputAudio { audio_url: Seq<char>, estimated_tokens: usize },
    EncryptedContent { encrypted_content: Seq<char> },
}

impl View for FunctionCallOutputContentItem {
    type V = ItemModel;

    open spec fn view(&self) -> ItemModel {
        match self {
            FunctionCallOutputContentItem::InputText { text } => ItemModel::InputText {
                text: text@,
            },
            FunctionCallOutputContentItem::InputImage { image_url, detail } => {
                ItemModel::InputImage { image_url: image_url@, detail: *detail }
            },
            FunctionCallOutputContentItem::InputAudio { audio_url, estimated_tokens } => {
                ItemModel::InputAudio {
                    audio_url: audio_url@,
                    estimated_tokens: *estimated_tokens,
                }
            },
            FunctionCallOutputContentItem::EncryptedContent { encrypted_content } => {
                ItemModel::EncryptedContent { encrypted_content: encrypted_content@ }
            },
        }
    }
}

impl Clone for FunctionCallOutputContentItem {
    fn clone(&self) -> (r: Self)
        ensures
            r@ == self@,
            r == *self,
    {
        match self {
            FunctionCallOutputContentItem::InputText { text } => {
                FunctionCallOutputContentItem::InputText { text: text.clone() }
            },
            FunctionCallOutputContentItem::InputImage { image_url, detail } => {
                FunctionCallOutputContentItem::InputImage {
                    image_url: image_url.clone(),
                    detail: *detail,
                }
            },
            FunctionCallOutputContentItem::InputAudio { audio_url, estimated_tokens } => {
                FunctionCallOutputContentItem::InputAudio {
                    audio_url: audio_url.clone(),
                    estimated_tokens: *estimated_tokens,
                }
            },
            FunctionCallOutputContentItem::EncryptedContent { encrypted_content } => {
                FunctionCallOutputContentItem::EncryptedContent {
                    encrypted_content: encrypted_content.clone(),
                }
            },
        }
    }
}

/// The models of a list of items.
pub open spec fn item_models(items: Seq<FunctionCallOutputContentItem>) -> Seq<ItemModel> {
    items.map_values(|item: FunctionCallOutputContentItem| item@)
}

/// A copy of a list of items.
pub fn copy_items(items: &Vec<FunctionCallOutputContentItem>) -> (r: Vec<
    FunctionCallOutputContentItem,
>)
    ensures
        r@ == items@,
{
    let mut out: Vec<FunctionCallOutputContentItem> = Vec::new();
    let mut i: usize = 0;
    while i < items.len()
        invariant
            i <= items@.len(),
            out@ == items@.take(i as int),
        decreases items@.len() - i,
    {
        proof {
            assert(items@.take(i + 1) =~= items@.take(i as int).push(items@[i as int]));
        }
        out.push(items[i].clone());
        i += 1;
    }
    proof {
        assert(items@.take(i as int) =~= items@);
    }
    out
}

/// What a tool returned.
#[derive(Debug)]
pub enum FunctionCallOutputBody {
    Text(String),
    ContentItems(Vec<FunctionCallOutputContentItem>),
}

/// The model of a [`FunctionCallOutputBody`].
pub enum BodyModel {
    Text(Seq<char>),
    ContentItems(Seq<ItemModel>),
}

impl View for FunctionCallOutputBody {
    type V = BodyModel;

    open spec fn view(&self) -> BodyModel {
        match self {
            FunctionCallOutputBody::Text(text) => BodyModel::Text(text@),
            FunctionCallOutputBody::ContentItems(items) => BodyModel::ContentItems(
                item_models(items@),
            ),
        }
    }
}

impl Clone for FunctionCallOutputBody {
    fn clone(&self) -> (r: Self)
        ensures
            r@ == self@,
    {
        match self {
            FunctionCallOutputBody::Text(text) => FunctionCallOutputBody::Text(text.clone()),
            FunctionCallOutputBody::ContentItems(items) => FunctionCallOutputBody::ContentItems(
                copy_items(items),
            ),
        }
    }
}

/// What a tool returned, and whether it succeeded.
#[derive(Debug)]
pub struct FunctionCallOutputPayload {
    pub body: FunctionCallOutputBody,
    pub success: Option<bool>,
}

/// The model of a [`FunctionCallOutputPayload`].
pub struct PayloadModel {
    pub body: BodyModel,
    pub success: Option<bool>,
}

impl View for FunctionCallOutputPayload {
    type V = PayloadModel;

    open spec fn view(&self) -> PayloadModel {
        PayloadModel { body: self.body@, success: self.success }
    }
}

impl Clone for FunctionCallOutputPayload {
    fn clone(&self) -> (r: Self)
        ensures
            r@ == self@,
    {
        FunctionCallOutputPayload { body: self.body.clone(), success: self.success }
    }
}

impl FunctionCallOutputPayload {
    /// A text output that says nothing of success.
    pub fn from_text(text: String) -> (r: FunctionCallOutputPayload)
        ensures
            r@ == (PayloadModel { body: BodyModel::Text(text@), success: None }),
    {
        FunctionCallOutputPayload { body: FunctionCallOutputBody::Text(text), success: None }
    }
}

/// One part of a message.
#[derive(Debug)]
pub enum ContentItem {
    InputText { text: String },
    OutputText { text: String },
    /// Any other part, as JSON text.
    Other { json: String },
}

/// The model of a [`ContentItem`].
pub enum ContentModel {
    InputText { text: Seq<char> },
    OutputText { text: Seq<char> },
    Other { json: Seq<char> },
}

impl View for ContentItem {
    type V = ContentModel;

    open spec fn view(&self) -> ContentModel {
        match self {
            ContentItem::InputText { text } => ContentModel::InputText { text: text@ },
            ContentItem::OutputText { text } => ContentModel::OutputText { text: text@ },
            ContentItem::Other { json } => ContentModel::Other { json: json@ },
        }
    }
}

impl Clone for ContentItem {
    fn clone(&self) -> (r: Self)
        ensures
            r@ == self@,
            r == *self,
    {
        match self {
            ContentItem::InputText { text } => ContentItem::InputText { text: text.clone() },
            ContentItem::OutputText { text } => ContentItem::OutputText { text: text.clone() },
            ContentItem::Other { json } => ContentItem::Other { json: json.clone() },
        }
    }
}

/// The models of the parts of a message.
pub open spec fn content_models(content: Seq<ContentItem>) -> Seq<ContentModel> {
    content.map_values(|item: ContentItem| item@)
}

/// A copy of the parts of a message.
fn copy_content(content: &Vec<ContentItem>) -> (r: Vec<ContentItem>)
    ensures
        r@ == content@,
{
    let mut out: Vec<ContentItem> = Vec::new();
    let mut i: usize = 0;
    while i < content.len()
        invariant
            i <= content@.len(),
            out@ == content@.take(i as int),
        decreases content@.len() - i,
    {
        proof {
            assert(content@.take(i + 1) =~= content@.take(i as int).push(content@[i as int]));
        }
        out.push(content[i].clone());
        i += 1;
    }
    proof {
        assert(content@.take(i as int) =~= content@);
    }
    out
}

/// One item of the model history.
///
/// What the library carries and never looks into is JSON text: `details`, `phase` and
/// `internal_chat_message_metadata_passthrough`.
#[allow(inconsistent_fields)]
#[derive(Debug)]
pub enum ResponseItem {
    Message {
        id: Option<String>,
        role: String,
        content: Vec<ContentItem>,
        phase: Option<String>,
        internal_chat_message_metadata_passthrough: Option<String>,
    },
    FunctionCall {
        id: Option<String>,
        name: String,
        namespace: Option<String>,
        arguments: String,
        encrypted_function_args: Option<String>,
        call_id: String,
        internal_chat_message_metadata_passthrough: Option<String>,
    },
    FunctionCallOutput {
        id: Option<String>,
        call_id: Option<String>,
        name: Option<String>,
        namespace: Option<String>,
        output: FunctionCallOutputPayload,
        internal_chat_message_metadata_passthrough: Option<String>,
    },
    CustomToolCall {
        id: Option<String>,
        status: Option<String>,
        call_id: String,
        name: String,
        namespace: Option<String>,
        input: String,
        internal_chat_message_metadata_passthrough: Option<String>,
    },
    CustomToolCallOutput {
        id: Option<String>,
        call_id: String,
        name: Option<String>,
        output: FunctionCallOutputPayload,
        internal_chat_message_metadata_passthrough: Option<String>,
    },
    LocalShellCall { id: Option<String>, call_id: Option<String>, details: String },
    ToolSearchCall { id: Option<String>, call_id: Option<String>, details: String },
    ToolSearchOutput { id: Option<String>, call_id: Option<String>, details: String },
    /// An item of any other kind.
    Opaque { id: Option<String>, details: String },
    /// An item of a kind that is not known, of which nothing is kept.
    Other,
}

/// The model of a [`ResponseItem`].
#[allow(inconsistent_fields)]
pub enum ResponseItemModel {
    Message {
        id: Option<Seq<char>>,
        role: Seq<char>,
        content: Seq<ContentModel>,
        phase: Option<Seq<char>>,
        internal_chat_message_metadata_passthrough: Option<Seq<char>>,
    },
    FunctionCall {
        id: Option<Seq<char>>,
        name: Seq<char>,
        namespace: Option<Seq<char>>,
        arguments: Seq<char>,
        encrypted_function_args: Option<Seq<char>>,
        call_id: Seq<char>,
        internal_chat_message_metadata_passthrough: Option<Seq<char>>,
    },
    FunctionCallOutput {
        id: Option<Seq<char>>,
        call_id: Option<Seq<char>>,
        name: Option<Seq<char>>,
        namespace: Option<Seq<char>>,
        output: PayloadModel,
        internal_chat_message_metadata_passthrough: Option<Seq<char>>,
    },
    CustomToolCall {
        id: Option<Seq<char>>,
        status: Option<Seq<char>>,
        call_id: Seq<char>,
        name: Seq<char>,
        namespace: Option<Seq<char>>,
        input: Seq<char>,
        internal_chat_message_metadata_passthrough: Option<Seq<char>>,
    },
    CustomToolCallOutput {
        id: Option<Seq<char>>,
        call_id: Seq<char>,
        name: Option<Seq<char>>,
        output: PayloadModel,
        internal_chat_message_metadata_passthrough: Option<Seq<char>>,
    },
    LocalShellCall { id: Option<Seq<char>>, call_id: Option<Seq<char>>, details: Seq<char> },
    ToolSearchCall { id: Option<Seq<char>>, call_id: Option<Seq<char>>, details: Seq<char> },
    ToolSearchOutput { id: Option<Seq<char>>, call_id: Option<Seq<char>>, details: Seq<char> },
    Opaque { id: Option<Seq<char>>, details: Seq<char> },
    Other,
}

impl View for ResponseItem {
    type V = ResponseItemModel;

    open spec fn view(&self) -> ResponseItemModel {
        match self {
            ResponseItem::Message {
                id,
                role,
                content,
                phase,
                internal_chat_message_metadata_passthrough,
            } => {
                ResponseItemModel::Message {
                    id: optional_text(*id),
                    role: role@,
                    content: content_models(content@),
                    phase: optional_text(*phase),
                    internal_chat_message_metadata_passthrough: optional_text(
                        *internal_chat_message_metadata_passthrough,
                    ),
                }
            },
            ResponseItem::FunctionCall {
                id,
                name,
                namespace,
                arguments,
                encrypted_function_args,
                call_id,
                internal_chat_message_metadata_passthrough,
            } => {
                ResponseItemModel::FunctionCall {
                    id: optional_text(*id),
                    name: name@,
                    namespace: optional_text(*namespace),
                    arguments: arguments@,
                    encrypted_function_args: optional_text(*encrypted_function_args),
                    call_id: call_id@,
                    internal_chat_message_metadata_passthrough: optional_text(
                        *internal_chat_message_metadata_passthrough,
                    ),
                }
            },
            ResponseItem::FunctionCallOutput {
                id,
                call_id,
                name,
                namespace,
                output,
                internal_chat_message_metadata_passthrough,
            } => {
                ResponseItemModel::FunctionCallOutput {
                    id: optional_text(*id),
                    call_id: optional_text(*call_id),
                    name: optional_text(*name),
                    namespace: optional_text(*namespace),
                    output: output@,
                    internal_chat_message_metadata_passthrough: optional_text(
                        *internal_chat_message_metadata_passthrough,
                    ),
                }
            },
            ResponseItem::CustomToolCall {
                id,
                status,
                call_id,
                name,
                namespace,
                input,
                internal_chat_message_metadata_passthrough,
            } => {
                ResponseItemModel::CustomToolCall {
                    id: optional_text(*id),
                    status: optional_text(*status),
                    call_id: call_id@,
                    name: name@,
                    namespace: optional_text(*namespace),
                    input: input@,
                    internal_chat_message_metadata_passthrough: optional_text(
                        *internal_chat_message_metadata_passthrough,
                    ),
                }
            },
            ResponseItem::CustomToolCallOutput {
                id,
                call_id,
                name,
                output,
                internal_chat_message_metadata_passthrough,
            } => {
                ResponseItemModel::CustomToolCallOutput {
                    id: optional_text(*id),
                    call_id: call_id@,
                    name: optional_text(*name),
                    output: output@,
                    internal_chat_message_metadata_passthrough: optional_text(
                        *internal_chat_message_metadata_passthrough,
                    ),
                }
            },
            ResponseItem::LocalShellCall { id, call_id, details } => {
                ResponseItemModel::LocalShellCall {
                    id: optional_text(*id),
                    call_id: optional_text(*call_id),
                    details: details@,
                }
            },
            ResponseItem::ToolSearchCall { id, call_id, details } => {
                ResponseItemModel::ToolSearchCall {
                    id: optional_text(*id),
                    call_id: optional_text(*call_id),
                    details: details@,
                }
            },
            ResponseItem::ToolSearchOutput { id, call_id, details } => {
                ResponseItemModel::ToolSearchOutput {
                    id: optional_text(*id),
                    call_id: optional_text(*call_id),
                    details: details@,
                }
            },
            ResponseItem::Opaque { id, details } => {
                ResponseItemModel::Opaque {
                    id: optional_text(*id),
                    details: details@,
                }
            },
            ResponseItem::Other => ResponseItemModel::Other,
        }
    }
}

impl Clone for ResponseItem {
    fn clone(&self) -> (r: Self)
        ensures
            r@ == self@,
    {
        match self {
            ResponseItem::Message {
                id,
                role,
                content,
                phase,
                internal_chat_message_metadata_passthrough,
            } => {
                ResponseItem::Message {
                    id: copy_optional(id),
                    role: role.clone(),
                    content: copy_content(content),
                    phase: copy_optional(phase),
                    internal_chat_message_metadata_passthrough: copy_optional(
                        internal_chat_message_metadata_passthrough,
                    ),
                }
            },
            ResponseItem::FunctionCall {
                id,
                name,
                namespace,
                arguments,
                encrypted_function_args,
                call_id,
                internal_chat_message_metadata_passthrough,
            } => {
                ResponseItem::FunctionCall {
                    id: copy_optional(id),
                    name: name.clone(),
                    namespace: copy_optional(namespace),
                    arguments: arguments.clone(),
                    encrypted_function_args: copy_optional(encrypted_function_args),
                    call_id: call_id.clone(),
                    internal_chat_message_metadata_passthrough: copy_optional(
                        internal_chat_message_metadata_passthrough,
                    ),
                }
            },
            ResponseItem::FunctionCallOutput {
                id,
                call_id,
                name,
                namespace,
                output,
                internal_chat_message_metadata_passthrough,
            } => {
                ResponseItem::FunctionCallOutput {
                    id: copy_optional(id),
                    call_id: copy_optional(call_id),
                    name: copy_optional(name),
                    namespace: copy_optional(namespace),
                    output: output.clone(),
                    internal_chat_message_metadata_passthrough: copy_optional(
                        internal_chat_message_metadata_passthrough,
                    ),
                }
            },
            ResponseItem::CustomToolCall {
                id,
                status,
                call_id,
                name,
                namespace,
                input,
                internal_chat_message_metadata_passthrough,
            } => {
                ResponseItem::CustomToolCall {
                    id: copy_optional(id),
                    status: copy_optional(status),
                    call_id: call_id.clone(),
                    name: name.clone(),
                    namespace: copy_optional(namespace),
                    input: input.clone(),
                    internal_chat_message_metadata_passthrough: copy_optional(
                        internal_chat_message_metadata_passthrough,
                    ),
                }
            },
            ResponseItem::CustomToolCallOutput {
                id,
                call_id,
                name,
                output,
                internal_chat_message_metadata_passthrough,
            } => {
                ResponseItem::CustomToolCallOutput {
                    id: copy_optional(id),
                    call_id: call_id.clone(),
                    name: copy_optional(name),
                    output: output.clone(),
                    internal_chat_message_metadata_passthrough: copy_optional(
                        internal_chat_message_metadata_passthrough,
                    ),
                }
            },
            ResponseItem::LocalShellCall { id, call_id, details } => {
                ResponseItem::LocalShellCall {
                    id: copy_optional(id),
                    call_id: copy_optional(call_id),
                    details: details.clone(),
                }
            },
            ResponseItem::ToolSearchCall { id, call_id, details } => {
                ResponseItem::ToolSearchCall {
                    id: copy_optional(id),
                    call_id: copy_optional(call_id),
                    details: details.clone(),
                }
            },
            ResponseItem::ToolSearchOutput { id, call_id, details } => {
                ResponseItem::ToolSearchOutput {
                    id: copy_optional(id),
                    call_id: copy_optional(call_id),
                    details: details.clone(),
                }
            },
            ResponseItem::Opaque { id, details } => {
                ResponseItem::Opaque {
                    id: copy_optional(id),
                    details: details.clone(),
                }
            },
            ResponseItem::Other => ResponseItem::Other,
        }
    }
}

/// Where a tool output comes from.
#[derive(Clone, Copy, Debug, PartialEq, Eq, Structural)]
pub enum ToolOutputProvenance {
    Untrusted,
    ManagedArtifactRetrieval,
    ManagedArtifactReference,
}

/// A tool call failed.
#[derive(Debug)]
pub enum FunctionCallError {
    /// The model is told, and may try again.
    RespondToModel(String),
}

impl View for FunctionCallError {
    type V = Seq<char>;

    open spec fn view(&self) -> Seq<char> {
        match self {
            FunctionCallError::RespondToModel(message) => message@,
        }
    }
}

impl FunctionCallError {
    /// An error with this message for the model.
    pub fn respond(message: &str) -> (r: FunctionCallError)
        ensures
            r@ == message@,
    {
        FunctionCallError::RespondToModel(message.to_owned())
    }
}

} // verus!
