# lvie

The verified core of LVIE, a raster image editor, written in Verus.

`src/` holds the editor's logic with its contracts and proofs:

- `boxblur`, `window`, `img_processing`: box and Gaussian blurs through
  summed-area tables, the windowed layout of a channel, cropping and channel
  histograms, on buffers of 8-bit samples (the blurs also of 16-bit ones);
- `matrix`, `utils`: dense matrices (product, sum, difference, padding) and
  the splitting and merging of interleaved RGB channels;
- `math`, `contrast`: histograms and cumulative distributions for histogram
  equalization;
- `raw_decoder`: demosaicing of Bayer sensor data;
- `history`, `snapshot`: the undo/redo history, the bookkeeping of its
  temporary preview files, and the byte format of those files with the law
  that reading one back undoes writing it;
- `editor`, `settings`, `backend_settings`, `text`, `shader`, `gpu`: the
  editor's enumerations and settings, the layout of its XML files, shader
  imports, and the arithmetic of GPU dispatch and read-back.

`app/` holds what Verus does not check: file and XML input and output,
conversions from the `image` and `rawloader` crates' types, and the
floating-point steps of some filters. `tests/` exercises the library.
