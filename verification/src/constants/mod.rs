//! Fixed settings of the tool.

use vstd::prelude::*;

verus! {

/// Name of the environment variable that holds the service key.
pub const Q_WEN_KEY_NAME: &'static str = "Q_WEN_KEY";

/// Address of the text-generation service.
pub const Q_WEN_TEXT_GEN_API: &'static str =
    "https://dashscope.aliyuncs.com/api/v1/services/aigc/text-generation/generation";

/// Pattern of a fenced code block in a reply: three backticks, a language
/// word, a line break, the content (as short as possible), three backticks.
pub const RES_TEXT_RANGE_REG: &'static str = r"`{3}(?P<language>\w+)(\n|\r\n?)(?P<content>[\s\S]*?)`{3}";

/// Most bytes of source code sent in one request; a function longer than
/// this cannot be sent and is left out.
pub const FUNCTION_CHUNK_MAX_SIZE: usize = 1024 * 8;

} // verus!
