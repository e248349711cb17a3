# shard

Convert PDF files to optimized WebP images — one image per page, preserving your folder structure.

- Scans a folder recursively for PDFs
- Renders each page as a WebP image using poppler (`pdftoppm`), or draws it as SVG (`pdftocairo`)
- Mirrors your folder structure in the output
- Uses SSIMULACRA2 adaptive encoding to find the optimal quality per page
- Skips files that already have WebP images by default; pages that were drawn as SVG are skipped
  one by one

```bash
# Interactive wizard (no flags needed)
shard

# One-shot for scripting
shard -s ./pdfs -o ./output -y
```

## Layout

`src/` is the library, in Verus: everything the program decides and computes, with contracts
that are proved. Paths are byte strings, as on Unix. What the file system, the clock or another
program says is handed in as plain values.

| module      | holds                                                                    |
|-------------|--------------------------------------------------------------------------|
| `text`      | decimal numbers, trimming, joining                                       |
| `path`      | the parts of paths                                                       |
| `calendar`  | dates and timestamps                                                     |
| `size`      | sizes of files in words                                                  |
| `error`     | the errors, in words                                                     |
| `config`    | the settings, their check, and the guided setup                          |
| `mirror`    | the PDF files below a folder, and where their pages go                   |
| `render`    | the page images that a renderer leaves, page counts                      |
| `encode`    | WebP encoding and decoding, the search for a quality                     |
| `xml`       | the elements of XML documents                                            |
| `plain`     | the drawings that hold nothing but plain shapes                          |
| `svg`       | the background of a drawing, and its clean-up                            |
| `converter` | the way of a file, its pages, and what is reported of them               |
| `imaging`   | the conversion of rendered pages to WebP images, step by step            |
| `drawing`   | the conversion of a file to SVG, step by step                            |
| `worker`    | what is reported and counted, disk space, the error log                  |
| `report`    | progress bars, labels and sizes on the command line                      |
| `tui`       | the terminal screen: state, keys, texts                                  |
| `gui`       | the state behind the window                                              |
| `updater`   | newer releases                                                           |

Proof functions whose names begin with `law_` state what holds of the library as a whole.

`app/` is the program around it: arguments, files, threads, other programs, the screen, and
arithmetic with floating-point numbers. It renders with pdfium where it is built with the feature
`pdfium` and the crate `pdfium-render`. `tests/` run the library.

### Requirements

- [poppler](https://poppler.freedesktop.org/) (`pdftoppm`, `pdfinfo`, `pdftocairo`)
