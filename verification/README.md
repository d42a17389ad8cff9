# Skaner dokumentów

A scanner of A4 documents for a camera that stands over the desk. Photographs of pages
become one PDF, which is kept in a library of freely named folders.

The rules of the program are a verified library; the program around it draws the
windows, reads the camera and touches the disk.

## The library (`src/`)

Every function states in `requires` and `ensures` what it does, and Verus proves it.

| What | Modules |
| --- | --- |
| texts, order, paths | `text`, `order`, `natural`, `formatting`, `paths`, `path_set` |
| the library of documents | `storage`, `library`, `search_laws`, `snapshot`, `folders`, `file_actions`, `recovery` |
| the window of the library | `library_view`, `library_screen`, `workspace`, `dialogs`, `messages` |
| finding and making a page | `raster`, `rotation`, `regions`, `detect`, `enhance`, `bilevel`, `document`, `jpeg_header`, `pages` |
| PDF files | `pdf_objects`, `pdf_numbers`, `pdf_layout`, `pdf_writing`, `pdf_reading`, `recompress` |
| a scan from photograph to file | `camera`, `autocapture`, `pipeline`, `scan`, `scan_flow`, `review`, `viewport`, `saving`, `sync` |
| nothing is lost in a crash | `atomic_file`, `session`, `session_names` |

What holds of several functions together stands as a public proof function whose name
begins with `law_`. Where the library relies on another crate (`lopdf`, `image`, `fax`),
the call stands in a small function marked `#[verifier::external_body]`, whose comment
says what is taken on trust.

## The program (`app/`)

    skaner-dokumentow                        the scanner
    skaner-dokumentow --recompress <folder>  makes the documents of a folder black and white
    skaner-dokumentow --probe                says what the camera delivers

Straightening a page, evening out its light and zooming are floating-point arithmetic and
stand there, as do the threads, the camera, the disk and the network.
