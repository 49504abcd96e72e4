pub mod twitch_chat_reader;
