//! Built-in requests: each opens as a tab with URL, authentication headers and
//! body filled in. The keys are placeholders that the user replaces.
use crate::model::{
    BodyKind, BodyKindView, DraftView, KeyValue, KeyValueView, Method, RawFormat, RequestDraft,
};
use crate::strings::{same_text, views};
use vstd::prelude::*;

verus! {

/// Whose interface a template is for.
#[derive(Debug, Clone, Copy, PartialEq, Eq, Structural)]
pub enum TemplateGroup {
    OpenAi,
    Anthropic,
}

impl TemplateGroup {
    pub const ALL: [TemplateGroup; 2] = [TemplateGroup::OpenAi, TemplateGroup::Anthropic];

    pub open spec fn name(self) -> Seq<char> {
        match self {
            TemplateGroup::OpenAi => "OpenAI"@,
            TemplateGroup::Anthropic => "Anthropic"@,
        }
    }

    pub fn label(self) -> (r: &'static str)
        ensures
            r@ == self.name(),
    {
        match self {
            TemplateGroup::OpenAi => "OpenAI",
            TemplateGroup::Anthropic => "Anthropic",
        }
    }
}

/// The two bodies of one interface: plain text, or text with an image.
#[derive(Debug, Clone, Copy, PartialEq, Eq, Structural)]
pub enum TemplateVariant {
    Text,
    Vision,
}

/// One built-in request.
#[derive(Debug, PartialEq, Eq)]
pub struct RequestTemplate {
    pub id: &'static str,
    pub group: TemplateGroup,
    /// The name of the interface.
    pub api: &'static str,
    pub variant: TemplateVariant,
    pub method: Method,
    pub url: &'static str,
    pub headers: Vec<(&'static str, &'static str)>,
    /// A JSON text.
    pub body: &'static str,
}

pub struct TemplateView {
    pub id: Seq<char>,
    pub group: TemplateGroup,
    pub api: Seq<char>,
    pub variant: TemplateVariant,
    pub method: Method,
    pub url: Seq<char>,
    pub headers: Seq<(Seq<char>, Seq<char>)>,
    pub body: Seq<char>,
}

/// The view of a list of headers.
pub open spec fn header_views(s: Seq<(&'static str, &'static str)>) -> Seq<
    (Seq<char>, Seq<char>),
> {
    s.map_values(|p: (&'static str, &'static str)| (p.0@, p.1@))
}

impl View for RequestTemplate {
    type V = TemplateView;

    open spec fn view(&self) -> TemplateView {
        TemplateView {
            id: self.id@,
            group: self.group,
            api: self.api@,
            variant: self.variant,
            method: self.method,
            url: self.url@,
            headers: header_views(self.headers@),
            body: self.body@,
        }
    }
}

impl Clone for RequestTemplate {
    fn clone(&self) -> (r: RequestTemplate)
        ensures
            r@ == self@,
    {
        let mut headers: Vec<(&'static str, &'static str)> = Vec::new();
        let mut i: usize = 0;
        while i < self.headers.len()
            invariant
                i <= self.headers@.len(),
                headers@ == self.headers@.take(i as int),
            decreases self.headers@.len() - i,
        {
            headers.push(self.headers[i]);
            proof {
                assert(headers@ =~= self.headers@.take(i + 1));
            }
            i = i + 1;
        }
        proof {
            assert(headers@ =~= self.headers@);
        }
        RequestTemplate {
            id: self.id,
            group: self.group,
            api: self.api,
            variant: self.variant,
            method: self.method,
            url: self.url,
            headers,
            body: self.body,
        }
    }
}

pub const OPENAI_CHAT_TEXT: &'static str = r#"{
  "model": "gpt-5.6",
  "messages": [
    { "role": "user", "content": "Explain HTTP status code 429 in one sentence." }
  ]
}"#;

// An image stands in an `image_url` block; the limit is `max_completion_tokens`.
pub const OPENAI_CHAT_VISION: &'static str = r#"{
  "model": "gpt-5.6",
  "messages": [
    {
      "role": "user",
      "content": [
        { "type": "text", "text": "What is in this image?" },
        {
          "type": "image_url",
          "image_url": {
            "url": "https://upload.wikimedia.org/wikipedia/commons/a/a7/Camponotus_flavomarginatus_ant.jpg",
            "detail": "auto"
          }
        }
      ]
    }
  ],
  "max_completion_tokens": 1024
}"#;

pub const OPENAI_RESPONSES_TEXT: &'static str = r#"{
  "model": "gpt-5.6",
  "input": "Explain HTTP status code 429 in one sentence."
}"#;

// Here the blocks are `input_text` and `input_image`, and `image_url` is a text.
pub const OPENAI_RESPONSES_VISION: &'static str = r#"{
  "model": "gpt-5.6",
  "input": [
    {
      "role": "user",
      "content": [
        { "type": "input_text", "text": "What is in this image?" },
        {
          "type": "input_image",
          "image_url": "https://upload.wikimedia.org/wikipedia/commons/a/a7/Camponotus_flavomarginatus_ant.jpg"
        }
      ]
    }
  ],
  "max_output_tokens": 1024
}"#;

// `max_tokens` is mandatory here.
pub const ANTHROPIC_MESSAGES_TEXT: &'static str = r#"{
  "model": "YOUR_MODEL",
  "max_tokens": 1024,
  "messages": [
    { "role": "user", "content": "Explain HTTP status code 429 in one sentence." }
  ]
}"#;

// An image is an `image` block with a `source`, and stands before the text.
pub const ANTHROPIC_MESSAGES_VISION: &'static str = r#"{
  "model": "YOUR_MODEL",
  "max_tokens": 1024,
  "messages": [
    {
      "role": "user",
      "content": [
        {
          "type": "image",
          "source": {
            "type": "url",
            "url": "https://upload.wikimedia.org/wikipedia/commons/a/a7/Camponotus_flavomarginatus_ant.jpg"
          }
        },
        { "type": "text", "text": "What is in this image?" }
      ]
    }
  ]
}"#;

pub open spec fn openai_headers() -> Seq<(Seq<char>, Seq<char>)> {
    seq![
        ("Content-Type"@, "application/json"@),
        ("Authorization"@, "Bearer YOUR_API_KEY"@),
    ]
}

pub open spec fn anthropic_headers() -> Seq<(Seq<char>, Seq<char>)> {
    seq![
        ("Content-Type"@, "application/json"@),
        ("x-api-key"@, "YOUR_API_KEY"@),
        ("anthropic-version"@, "2023-06-01"@),
    ]
}

/// A template of the given group, with the headers of that group.
pub open spec fn template_view(
    id: Seq<char>,
    group: TemplateGroup,
    api: Seq<char>,
    variant: TemplateVariant,
    url: Seq<char>,
    body: Seq<char>,
) -> TemplateView {
    TemplateView {
        id,
        group,
        api,
        variant,
        method: Method::Post,
        url,
        headers: match group {
            TemplateGroup::OpenAi => openai_headers(),
            TemplateGroup::Anthropic => anthropic_headers(),
        },
        body,
    }
}

/// All templates.
pub open spec fn catalogue() -> Seq<TemplateView> {
    seq![
        template_view(
            "openai-chat-text"@,
            TemplateGroup::OpenAi,
            "Chat Completions"@,
            TemplateVariant::Text,
            "https://api.openai.com/v1/chat/completions"@,
            OPENAI_CHAT_TEXT@,
        ),
        template_view(
            "openai-chat-vision"@,
            TemplateGroup::OpenAi,
            "Chat Completions"@,
            TemplateVariant::Vision,
            "https://api.openai.com/v1/chat/completions"@,
            OPENAI_CHAT_VISION@,
        ),
        template_view(
            "openai-responses-text"@,
            TemplateGroup::OpenAi,
            "Responses"@,
            TemplateVariant::Text,
            "https://api.openai.com/v1/responses"@,
            OPENAI_RESPONSES_TEXT@,
        ),
        template_view(
            "openai-responses-vision"@,
            TemplateGroup::OpenAi,
            "Responses"@,
            TemplateVariant::Vision,
            "https://api.openai.com/v1/responses"@,
            OPENAI_RESPONSES_VISION@,
        ),
        template_view(
            "anthropic-messages-text"@,
            TemplateGroup::Anthropic,
            "Messages"@,
            TemplateVariant::Text,
            "https://api.anthropic.com/v1/messages"@,
            ANTHROPIC_MESSAGES_TEXT@,
        ),
        template_view(
            "anthropic-messages-vision"@,
            TemplateGroup::Anthropic,
            "Messages"@,
            TemplateVariant::Vision,
            "https://api.anthropic.com/v1/messages"@,
            ANTHROPIC_MESSAGES_VISION@,
        ),
    ]
}

fn openai_header_rows() -> (r: Vec<(&'static str, &'static str)>)
    ensures
        header_views(r@) == openai_headers(),
{
    let mut r: Vec<(&'static str, &'static str)> = Vec::new();
    r.push(("Content-Type", "application/json"));
    r.push(("Authorization", "Bearer YOUR_API_KEY"));
    proof {
        assert(header_views(r@) =~= openai_headers());
    }
    r
}

fn anthropic_header_rows() -> (r: Vec<(&'static str, &'static str)>)
    ensures
        header_views(r@) == anthropic_headers(),
{
    let mut r: Vec<(&'static str, &'static str)> = Vec::new();
    r.push(("Content-Type", "application/json"));
    r.push(("x-api-key", "YOUR_API_KEY"));
    r.push(("anthropic-version", "2023-06-01"));
    proof {
        assert(header_views(r@) =~= anthropic_headers());
    }
    r
}

fn template(
    id: &'static str,
    group: TemplateGroup,
    api: &'static str,
    variant: TemplateVariant,
    url: &'static str,
    body: &'static str,
) -> (r: RequestTemplate)
    ensures
        r@ == template_view(id@, group, api@, variant, url@, body@),
{
    RequestTemplate {
        id,
        group,
        api,
        variant,
        method: Method::Post,
        url,
        headers: match group {
            TemplateGroup::OpenAi => openai_header_rows(),
            TemplateGroup::Anthropic => anthropic_header_rows(),
        },
        body,
    }
}

/// All templates.
pub fn all() -> (r: Vec<RequestTemplate>)
    ensures
        views(r@) == catalogue(),
{
    let mut r: Vec<RequestTemplate> = Vec::new();
    r.push(
        template(
            "openai-chat-text",
            TemplateGroup::OpenAi,
            "Chat Completions",
            TemplateVariant::Text,
            "https://api.openai.com/v1/chat/completions",
            OPENAI_CHAT_TEXT,
        ),
    );
    r.push(
        template(
            "openai-chat-vision",
            TemplateGroup::OpenAi,
            "Chat Completions",
            TemplateVariant::Vision,
            "https://api.openai.com/v1/chat/completions",
            OPENAI_CHAT_VISION,
        ),
    );
    r.push(
        template(
            "openai-responses-text",
            TemplateGroup::OpenAi,
            "Responses",
            TemplateVariant::Text,
            "https://api.openai.com/v1/responses",
            OPENAI_RESPONSES_TEXT,
        ),
    );
    r.push(
        template(
            "openai-responses-vision",
            TemplateGroup::OpenAi,
            "Responses",
            TemplateVariant::Vision,
            "https://api.openai.com/v1/responses",
            OPENAI_RESPONSES_VISION,
        ),
    );
    r.push(
        template(
            "anthropic-messages-text",
            TemplateGroup::Anthropic,
            "Messages",
            TemplateVariant::Text,
            "https://api.anthropic.com/v1/messages",
            ANTHROPIC_MESSAGES_TEXT,
        ),
    );
    r.push(
        template(
            "anthropic-messages-vision",
            TemplateGroup::Anthropic,
            "Messages",
            TemplateVariant::Vision,
            "https://api.anthropic.com/v1/messages",
            ANTHROPIC_MESSAGES_VISION,
        ),
    );
    proof {
        assert(views(r@) =~= catalogue());
    }
    r
}

/// The template with the given identifier.
pub fn find(id: &str) -> (r: Option<RequestTemplate>)
    ensures
        match r {
            Some(t) => t@.id == id@ && catalogue().contains(t@),
            None => forall|i: int|
                0 <= i < catalogue().len() ==> (#[trigger] catalogue()[i]).id != id@,
        },
{
    let mut list = all();
    let ghost whole = views(list@);
    while list.len() > 0
        invariant
            whole == catalogue(),
            list@.len() <= whole.len(),
            views(list@) == whole.take(list@.len() as int),
            forall|i: int| list@.len() <= i < whole.len() ==> (#[trigger] whole[i]).id != id@,
        decreases list@.len(),
    {
        let ghost n = list@.len();
        let ghost shown = views(list@);
        match list.pop() {
            Some(t) => {
                proof {
                    assert(shown[n - 1] == t@);
                    assert(whole[n - 1] == t@);
                    assert(views(list@) =~= whole.take(n - 1));
                }
                if same_text(t.id, id) {
                    return Some(t);
                }
            },
            None => {},
        }
    }
    None
}

impl RequestTemplate {
    /// The request that the template stands for.
    pub fn draft(&self) -> (r: RequestDraft)
        ensures
            r@ == (DraftView {
                method: self@.method,
                url: self@.url,
                headers: self@.headers.map_values(
                    |p: (Seq<char>, Seq<char>)|
                        KeyValueView { key: p.0, value: p.1, enabled: true },
                ),
                body: BodyKindView::Raw { format: RawFormat::Json, text: self@.body },
                ..crate::model::empty_draft()
            }),
    {
        let mut headers: Vec<KeyValue> = Vec::new();
        let mut i: usize = 0;
        while i < self.headers.len()
            invariant
                i <= self.headers@.len(),
                headers@.len() == i,
                forall|k: int|
                    0 <= k < i ==> (#[trigger] headers@[k])@ == (KeyValueView {
                        key: self.headers@[k].0@,
                        value: self.headers@[k].1@,
                        enabled: true,
                    }),
            decreases self.headers@.len() - i,
        {
            let pair = self.headers[i];
            headers.push(KeyValue::new(pair.0, pair.1));
            i = i + 1;
        }
        let mut r = RequestDraft::default();
        r.method = self.method;
        r.url = self.url.to_owned();
        r.headers = headers;
        r.body = BodyKind::Raw { format: RawFormat::Json, text: self.body.to_owned() };
        proof {
            assert(r@.headers =~= self@.headers.map_values(
                |p: (Seq<char>, Seq<char>)| KeyValueView { key: p.0, value: p.1, enabled: true },
            ));
        }
        r
    }

    /// The name under which the template is listed.
    pub fn display_name(&self) -> (r: &'static str)
        ensures
            r@ == self@.api,
    {
        self.api
    }
}

/// No two templates share an identifier.
pub proof fn template_ids_are_unique(i: int, j: int)
    requires
        0 <= i < catalogue().len(),
        0 <= j < catalogue().len(),
        catalogue()[i].id == catalogue()[j].id,
    ensures
        i == j,
{
    reveal_strlit("openai-chat-text");
    reveal_strlit("openai-chat-vision");
    reveal_strlit("openai-responses-text");
    reveal_strlit("openai-responses-vision");
    reveal_strlit("anthropic-messages-text");
    reveal_strlit("anthropic-messages-vision");
    assert(catalogue()[3].id[0] == 'o');
    assert(catalogue()[4].id[0] == 'a');
    let lengths = seq![16int, 18, 21, 23, 23, 25];
    assert forall|k: int| 0 <= k < 6 implies #[trigger] catalogue()[k].id.len() == lengths[k] by {}
    assert(catalogue()[i].id.len() == lengths[i]);
    assert(catalogue()[j].id.len() == lengths[j]);
    if i != j {
        assert((i == 3 && j == 4) || (i == 4 && j == 3));
    }
}

/// Each group has a template of each variant.
pub proof fn every_group_and_variant_is_covered(group: TemplateGroup, variant: TemplateVariant)
    ensures
        exists|i: int|
            0 <= i < catalogue().len() && (#[trigger] catalogue()[i]).group == group
                && catalogue()[i].variant == variant,
{
    let i = match (group, variant) {
        (TemplateGroup::OpenAi, TemplateVariant::Text) => 0int,
        (TemplateGroup::OpenAi, TemplateVariant::Vision) => 1int,
        (TemplateGroup::Anthropic, TemplateVariant::Text) => 4int,
        (TemplateGroup::Anthropic, TemplateVariant::Vision) => 5int,
    };
    assert(catalogue()[i].group == group && catalogue()[i].variant == variant);
}

/// A template authenticates with a placeholder and with nothing else.
pub proof fn templates_carry_placeholders(i: int)
    requires
        0 <= i < catalogue().len(),
    ensures
        catalogue()[i].headers == openai_headers() || catalogue()[i].headers
            == anthropic_headers(),
{
}

} // verus!
