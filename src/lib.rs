//! Turns Markdown into a self-contained HTML document for a content editor, and
//! decides how the document's images are localized or uploaded.

pub mod diagram;
pub mod document;
pub mod footnote;
pub mod images;
pub mod localize;
pub mod models;
pub mod prompt;
pub mod settings;
pub mod text;
pub mod token;
pub mod upload;

pub use diagram::replace_mermaid_blocks;
pub use document::{convert_markdown, get_fallback_css};
pub use footnote::convert_links_to_footnotes;
pub use models::{
    ChatCompletionChoice, ChatCompletionRequestMessage, ChatCompletionResponse,
    ChatCompletionResponseMessage, GeminiImageInstance, GeminiImageParameters, GeminiImageRequest,
    GeminiImageResponse, GeminiPrediction, WechatTokenResponse, WechatUploadResponse,
    WechatUploadResult, WechatUploadResultEntry,
};
pub use prompt::generate_image_prompt_from_markdown;
