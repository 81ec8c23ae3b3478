# edgequake

Reading scientific documents into a knowledge base: converting PDFs to markdown,
repairing the LaTeX in it, taking out figures, tables, links and references,
finding algorithms and repositories, and running the tasks that do all this.

- `src/` is the library. Its functions have contracts that Verus proves.
  What the library takes on trust from other crates stands in functions marked
  `external_body`, each with a comment that says what is assumed.
- `tests/` runs the library with those crates.
- `app/` is the application around the library: the environment, files, the
  network, the database, and the loops that carry out what the library decides.

## The library

| Modules | What they are about |
| --- | --- |
| `text`, `patterns`, `headings`, `order`, `rewrite` | text as characters, searching, ordering and rewriting it |
| `latex_repair`, `latex_laws`, `latex_measure`, `latex_rest`, `latex_marks` | repairing LaTeX, why a second repair changes nothing, and what it keeps |
| `layout`, `figures`, `tables`, `table_laws`, `media` | regions of pages, and what is taken out of them |
| `algo_blocks`, `conversion`, `page_runs` | from pages to markdown |
| `links`, `repos` | links, references and the repositories they point to |
| `chunk`, `metadata`, `naming`, `backfill`, `graph` | what is stored of a document |
| `safety_limits`, `tasks` | limits, providers, workspaces and progress |
| `pdf_plan`, `pdf_processing` | the task of reading a PDF |
| `algorithm_extraction`, `algorithm_runs`, `algorithm_embedding` | the tasks on algorithms |
| `table_classification` | the task of labelling tables |
| `code_reference`, `reference_codebase`, `repo_detection` | the tasks on repositories |

A task is a state machine: it is told what happened and says what to report and
what to do next. Its contract gives the next state for every event. Functions
named `law_...` state what holds of several functions together.
