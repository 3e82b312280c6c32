# gmail_to_rag

Turns a Gmail Takeout `.mbox` archive into a folder with one text file per
email, ready to be uploaded as a knowledge base (for example to Open WebUI).

The library in `src/` is verified with Verus:

- `mbox` splits an archive into messages at its `From ` marker lines;
- `mime` holds what the `mailparse` crate yields for a message and picks
  its plain-text body;
- `sanitise` turns a subject into a safe file name stem;
- `config` holds the settings and fills the file name pattern and the file
  template;
- `export` puts these together for one message and counts the outcome;
- `cli` reads the command line.

`app/` is the program around it: reading the TOML configuration and the
archive, writing the files and printing progress.

Usage: `mbox-to-text [--config config.toml] <path/to/mail.mbox> [output_dir]`
