# codextract

Extraction of source code for a software copyright submission: comments are
removed from each file according to its language, blank lines are dropped, and
the submitted text is cut to at most sixty pages of 65 lines (all of it when it
fits, else the first and the last thirty pages). The result can be exported as
a Word document, one paragraph per page.

Layout:

- `src/` — the verified library (Verus):
  - `text.rs`: whitespace, trimming, splitting into lines and joining them;
  - `cleaner.rs`: comment syntax per extension and the line scanner that
    removes comments while leaving string literals alone;
  - `layout.rs`: page geometry and page counts;
  - `pagination.rs`: blank-line removal and the choice of submitted lines;
  - `extraction.rs`: extraction over a list of files;
  - `export.rs`: the document title and the page paragraphs to export;
  - `scanner.rs`: extension whitelist, exclusion patterns, `.gitignore` rules
    and the summary of a project scan;
  - `types.rs`: the configuration and result values.
- `app/` — the shell around it: reading files (with byte-order-mark
  decoding), walking directories, writing the `.docx` file, and serializable
  copies of the library's values.
- `tests/` — tests of the library.
