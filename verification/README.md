# Hawellha

A file converter for the COSMIC desktop: tables, images, documents, archives,
audio and video. The library decides what a conversion does and proves that it
does so; the program around it touches the disk, the processes and the window.

- `src/converters/`: the conversion matrix, output paths and the engines
- `src/app/`: the queue, the batches, the history, and what each message changes
- `src/ui/`: labels and icons
- `src/outside/`: the calls into other crates, each with what is relied on
- `src/text.rs`, `src/number.rs`, `src/paths.rs`: strings, numerals and paths
- `app/`: the program
- `tests/`: examples on concrete values

Laws that relate several functions stand as `law_...` proof functions next to
what they speak of.
