//! The fixed instruction texts the client seeds conversations with.

use vstd::prelude::*;

verus! {

/// The default persistent developer instruction.
pub fn default_dev_message() -> (r: &'static str)
    ensures
        r@ == default_dev_message_text(),
{
    "Please take your time when answering. You are helpful, intelligent, and friendly.\nYou are also very concise and accurate.\nNo words are wasted in your responses.\nWhen what is being asked is ambiguous, please ask clarifying questions before answering.\nAlways answer with very accurate and kind responses that are short, to the point and friendly."
}

pub open spec fn default_dev_message_text() -> Seq<char> {
    "Please take your time when answering. You are helpful, intelligent, and friendly.\nYou are also very concise and accurate.\nNo words are wasted in your responses.\nWhen what is being asked is ambiguous, please ask clarifying questions before answering.\nAlways answer with very accurate and kind responses that are short, to the point and friendly."@
}

/// The instruction that turns a conversation into a report.
pub fn document_prompt() -> (r: &'static str)
    ensures
        r@ == document_prompt_text(),
{
    "Please take your time when answering. Your job is to look at the following conversation\nand create a well-formed document about the topics in the conversation. Do not talk about the\npeople in the conversations, or that it is a conversation. Extract the meaning and data of\nthe conversation and put it into a well-formed report, do not omit any part of the\nconversation. If there is code, please put it in the report.\nMake sure the report is written in markdown. Make sure to look at all messages."
}

pub open spec fn document_prompt_text() -> Seq<char> {
    "Please take your time when answering. Your job is to look at the following conversation\nand create a well-formed document about the topics in the conversation. Do not talk about the\npeople in the conversations, or that it is a conversation. Extract the meaning and data of\nthe conversation and put it into a well-formed report, do not omit any part of the\nconversation. If there is code, please put it in the report.\nMake sure the report is written in markdown. Make sure to look at all messages."@
}

/// The instruction that asks for a one-line report title.
pub fn title_prompt() -> (r: &'static str)
    ensures
        r@ == title_prompt_text(),
{
    "You are an assistant that creates concise titles for reports. Based on the following report content, provide a one-line title that summarizes the content. Do not include any additional text."
}

pub open spec fn title_prompt_text() -> Seq<char> {
    "You are an assistant that creates concise titles for reports. Based on the following report content, provide a one-line title that summarizes the content. Do not include any additional text."@
}

/// The instruction that asks for a README over a directory's files.
pub fn readme_prompt() -> (r: &'static str)
    ensures
        r@ == readme_prompt_text(),
{
    "Please take your time when answering. Generate a comprehensive README.md for this project. The README should include the following elements:\n\n1. **Project Title and Description**: Provide a concise overview of the project, its objectives, and key features.\n\n2. **Installation Instructions**: Outline the steps required to install and set up the project, including any necessary dependencies or configurations.\n\n3. **Usage Guide**: Explain how to use the project, highlighting important commands, workflows, or features.\n\n4. **File and Structure Overview**: Summarize important files and folders in the project and their purposes (e.g., source files, configuration files, scripts).\n\n5. **Configuration Details**: Include key settings or configurations that users need to be aware of, especially from files like `.toml`, `.json`, `.yaml`, and `.csproj`.\n\n6. **Contribution Guidelines**: Briefly mention how others can contribute to the project, linking to `CONTRIBUTING.md` if available.\n\n7. **License Information**: State the licensing terms of the project, referring to the `LICENSE` file if present.\n\nEnsure the README is clear, logically organized, and easy to follow. Use the extracted content from key project files to enrich the descriptions and instructions."
}

pub open spec fn readme_prompt_text() -> Seq<char> {
    "Please take your time when answering. Generate a comprehensive README.md for this project. The README should include the following elements:\n\n1. **Project Title and Description**: Provide a concise overview of the project, its objectives, and key features.\n\n2. **Installation Instructions**: Outline the steps required to install and set up the project, including any necessary dependencies or configurations.\n\n3. **Usage Guide**: Explain how to use the project, highlighting important commands, workflows, or features.\n\n4. **File and Structure Overview**: Summarize important files and folders in the project and their purposes (e.g., source files, configuration files, scripts).\n\n5. **Configuration Details**: Include key settings or configurations that users need to be aware of, especially from files like `.toml`, `.json`, `.yaml`, and `.csproj`.\n\n6. **Contribution Guidelines**: Briefly mention how others can contribute to the project, linking to `CONTRIBUTING.md` if available.\n\n7. **License Information**: State the licensing terms of the project, referring to the `LICENSE` file if present.\n\nEnsure the README is clear, logically organized, and easy to follow. Use the extracted content from key project files to enrich the descriptions and instructions."@
}

} // verus!
