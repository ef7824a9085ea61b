//! The data exchanged with the media host and the generation services.

use vstd::prelude::*;

verus! {

/// One message of a chat completion request.
#[derive(Clone, Debug, PartialEq, Eq)]
pub struct ChatCompletionRequestMessage {
    pub role: String,
    pub content: String,
}

/// The message of one chat completion choice.
#[derive(Clone, Debug, PartialEq, Eq)]
pub struct ChatCompletionResponseMessage {
    pub content: String,
}

#[derive(Clone, Debug, PartialEq, Eq)]
pub struct ChatCompletionChoice {
    pub message: ChatCompletionResponseMessage,
}

#[derive(Clone, Debug, PartialEq, Eq)]
pub struct ChatCompletionResponse {
    pub choices: Vec<ChatCompletionChoice>,
}

/// What the media host answers to a token request.
#[derive(Clone, Debug, PartialEq, Eq)]
pub struct WechatTokenResponse {
    pub access_token: Option<String>,
    pub expires_in: Option<i64>,
    pub errcode: Option<i32>,
    pub errmsg: Option<String>,
}

/// What the media host answers to an upload.
#[derive(Clone, Debug, PartialEq, Eq)]
pub struct WechatUploadResponse {
    pub media_id: Option<String>,
    pub url: Option<String>,
    pub errcode: Option<i32>,
    pub errmsg: Option<String>,
}

/// A record that `original_url` was uploaded and is hosted at `wechat_url`.
#[derive(Clone, Debug, PartialEq, Eq)]
pub struct WechatUploadResultEntry {
    pub original_url: String,
    pub wechat_url: String,
    pub media_id: String,
}

/// The rewritten Markdown and every image record used for it.
#[derive(Clone, Debug, PartialEq, Eq)]
pub struct WechatUploadResult {
    pub markdown: String,
    pub items: Vec<WechatUploadResultEntry>,
}

#[derive(Clone, Debug, PartialEq, Eq)]
pub struct GeminiImageRequest {
    pub instances: Vec<GeminiImageInstance>,
    pub parameters: GeminiImageParameters,
}

#[derive(Clone, Debug, PartialEq, Eq)]
pub struct GeminiImageInstance {
    pub prompt: String,
}

#[derive(Clone, Debug, PartialEq, Eq)]
pub struct GeminiImageParameters {
    pub sample_count: u32,
}

#[derive(Clone, Debug, PartialEq, Eq)]
pub struct GeminiImageResponse {
    pub predictions: Vec<GeminiPrediction>,
}

#[derive(Clone, Debug, PartialEq, Eq)]
pub struct GeminiPrediction {
    pub bytes_base64_encoded: String,
}

} // verus!
